use vstd::prelude::*;

use crate::error::CaptchaError;
use crate::geometry::Geometry;
use crate::pixel::{background, marker, Pixl};

verus! {

/// A dense raster canvas of `width * height` pixels, row-major, origin
/// top-left.
#[derive(Debug)]
pub struct Image {
    width: u32,
    height: u32,
    data: Vec<Pixl>,
}

/// `0 <= y*w + x < w*h` whenever `(x, y)` lies in a `w x h` grid.
pub proof fn lemma_index_bound(w: int, h: int, x: int, y: int)
    requires
        0 <= x < w,
        0 <= y < h,
    ensures
        0 <= y * w + x < w * h,
{
    assert(0 <= y * w + x < w * h) by (nonlinear_arith)
        requires
            0 <= x < w,
            0 <= y < h,
    ;
}

/// The disk rule shared by `fill_circle` and the blob filter: a pixel
/// belongs to the disk of radius `r` around `(cx, cy)` when its integer
/// distance to the center, `floor(sqrt(dx*dx + dy*dy))`, is at most `r`;
/// equivalently, when the squared distance is below `(r + 1) * (r + 1)`.
pub open spec fn in_disk(cx: int, cy: int, x: int, y: int, r: int) -> bool {
    (x - cx) * (x - cx) + (y - cy) * (y - cy) < (r + 1) * (r + 1)
}

/// A pixel inside the disk of radius `r` lies in its bounding box.
pub proof fn lemma_disk_in_box(cx: int, cy: int, x: int, y: int, r: int)
    requires
        r >= 0,
        in_disk(cx, cy, x, y, r),
    ensures
        cx - r <= x <= cx + r,
        cy - r <= y <= cy + r,
{
    assert(cx - r <= x <= cx + r && cy - r <= y <= cy + r) by (nonlinear_arith)
        requires
            r >= 0,
            (x - cx) * (x - cx) + (y - cy) * (y - cy) < (r + 1) * (r + 1),
    ;
}

/// Row-major indexing is injective on grid coordinates.
pub proof fn lemma_index_injective(w: int, x1: int, y1: int, x2: int, y2: int)
    requires
        0 <= x1 < w,
        0 <= x2 < w,
        0 <= y1,
        0 <= y2,
        y1 * w + x1 == y2 * w + x2,
    ensures
        x1 == x2,
        y1 == y2,
{
    assert(x1 == x2 && y1 == y2) by (nonlinear_arith)
        requires
            0 <= x1 < w,
            0 <= x2 < w,
            0 <= y1,
            0 <= y2,
            y1 * w + x1 == y2 * w + x2,
    ;
}

impl Image {
    /// The canvas width in pixels.
    pub closed spec fn spec_width(&self) -> u32 {
        self.width
    }

    /// The canvas height in pixels.
    pub closed spec fn spec_height(&self) -> u32 {
        self.height
    }

    /// The pixel grid, row-major.
    pub closed spec fn pixels(self) -> Seq<Pixl> {
        self.data@
    }

    /// A canvas is well formed when both dimensions are positive and the
    /// backing row-major buffer has exactly one pixel per grid cell.
    pub open spec fn wf(self) -> bool {
        &&& 1 <= self.spec_width()
        &&& 1 <= self.spec_height()
        &&& self.pixels().len() == self.spec_width() * self.spec_height()
    }

    /// The pixel at column `x`, row `y`.
    pub open spec fn pix(self, x: int, y: int) -> Pixl
        recommends
            0 <= x < self.spec_width(),
            0 <= y < self.spec_height(),
    {
        self.pixels()[y * self.spec_width() + x]
    }

    /// Both canvases have the same dimensions and the same pixels.
    pub open spec fn same_content(self, other: Image) -> bool {
        &&& self.spec_width() == other.spec_width()
        &&& self.spec_height() == other.spec_height()
        &&& self.pixels() == other.pixels()
    }

    #[verifier::when_used_as_spec(spec_width)]
    pub fn width(&self) -> (w: u32)
        ensures
            w == self.spec_width(),
    {
        self.width
    }

    #[verifier::when_used_as_spec(spec_height)]
    pub fn height(&self) -> (h: u32)
        ensures
            h == self.spec_height(),
    {
        self.height
    }

    /// A canvas filled with the background color. Internal constructor:
    /// the dimensions have already been validated.
    pub(crate) fn blank(w: u32, h: u32) -> (img: Image)
        requires
            1 <= w,
            1 <= h,
            w * h <= usize::MAX,
        ensures
            img.wf(),
            img.spec_width() == w,
            img.spec_height() == h,
            forall|x: int, y: int|
                0 <= x < w && 0 <= y < h ==> img.pix(x, y) == background(),
    {
        let total: usize = (w as usize) * (h as usize);
        let mut data: Vec<Pixl> = Vec::new();
        let mut k: usize = 0;
        while k < total
            invariant
                k <= total,
                total == w * h,
                data@.len() == k,
                forall|i: int| 0 <= i < k ==> data@[i] == background(),
            decreases total - k,
        {
            data.push(Pixl::white());
            k = k + 1;
        }
        let img = Image { width: w, height: h, data };
        proof {
            assert forall|x: int, y: int|
                0 <= x < w && 0 <= y < h implies img.pix(x, y) == background() by {
                lemma_index_bound(w as int, h as int, x, y);
            }
        }
        img
    }

    /// A fresh canvas filled with the background color.
    ///
    /// Rejects zero dimensions, and dimensions whose pixel count does not
    /// fit this machine, with `InvalidDimensions`; nothing is allocated in
    /// that case.
    pub fn new(w: u32, h: u32) -> (r: Result<Image, CaptchaError>)
        ensures
            r is Ok <==> 1 <= w && 1 <= h && w * h <= usize::MAX,
            r is Err ==> r->Err_0 == CaptchaError::InvalidDimensions,
            r is Ok ==> {
                &&& r->Ok_0.wf()
                &&& r->Ok_0.spec_width() == w
                &&& r->Ok_0.spec_height() == h
                &&& forall|x: int, y: int|
                    0 <= x < w && 0 <= y < h ==> r->Ok_0.pix(x, y) == background()
            },
    {
        if w < 1 || h < 1 {
            return Err(CaptchaError::InvalidDimensions);
        }
        match (w as usize).checked_mul(h as usize) {
            None => Err(CaptchaError::InvalidDimensions),
            Some(_) => Ok(Image::blank(w, h)),
        }
    }

    /// How many pixels the canvas holds.
    pub(crate) fn pixel_count(&self) -> (n: usize)
        requires
            self.wf(),
        ensures
            n == self.spec_width() * self.spec_height(),
    {
        self.data.len()
    }

    /// The pixel at `(x, y)`. Reading outside the canvas is a caller
    /// contract violation, excluded here.
    pub fn get_pixel(&self, x: u32, y: u32) -> (p: Pixl)
        requires
            self.wf(),
            x < self.spec_width(),
            y < self.spec_height(),
        ensures
            p == self.pix(x as int, y as int),
    {
        let n: usize = self.data.len();
        proof {
            lemma_index_bound(
                self.spec_width() as int,
                self.spec_height() as int,
                x as int,
                y as int,
            );
        }
        let idx: usize = (y as usize) * (self.width as usize) + (x as usize);
        self.data[idx]
    }

    /// Writes `p` at `(x, y)` when that lies on the canvas; writing outside
    /// the canvas is a silent no-op.
    pub fn put_pixel(&mut self, x: u32, y: u32, p: Pixl)
        requires
            old(self).wf(),
        ensures
            final(self).wf(),
            final(self).spec_width() == old(self).spec_width(),
            final(self).spec_height() == old(self).spec_height(),
            x < old(self).spec_width() && y < old(self).spec_height() ==> {
                &&& final(self).pix(x as int, y as int) == p
                &&& forall|i: int, j: int|
                    0 <= i < old(self).spec_width() && 0 <= j < old(self).spec_height()
                        && !(i == x && j == y) ==> final(self).pix(i, j) == old(self).pix(i, j)
            },
            !(x < old(self).spec_width() && y < old(self).spec_height())
                ==> final(self).same_content(*old(self)),
    {
        if x < self.width && y < self.height {
            let n: usize = self.data.len();
            proof {
                lemma_index_bound(
                    self.spec_width() as int,
                    self.spec_height() as int,
                    x as int,
                    y as int,
                );
            }
            let idx: usize = (y as usize) * (self.width as usize) + (x as usize);
            self.data[idx] = p;
            proof {
                let w = self.spec_width() as int;
                let h = self.spec_height() as int;
                assert forall|i: int, j: int|
                    0 <= i < w && 0 <= j < h && !(i == x && j == y)
                        implies self.pix(i, j) == old(self).pix(i, j) by {
                    lemma_index_bound(w, h, i, j);
                    if j * w + i == y * w + x {
                        lemma_index_injective(w, i, j, x as int, y as int);
                    }
                }
            }
        }
    }

    /// Resets every pixel to the background color.
    pub fn clear(&mut self)
        requires
            old(self).wf(),
        ensures
            final(self).wf(),
            final(self).spec_width() == old(self).spec_width(),
            final(self).spec_height() == old(self).spec_height(),
            forall|x: int, y: int|
                0 <= x < old(self).spec_width() && 0 <= y < old(self).spec_height()
                    ==> final(self).pix(x, y) == background(),
    {
        let total: usize = self.data.len();
        let mut k: usize = 0;
        while k < total
            invariant
                k <= total,
                self.data@.len() == total,
                self.width == old(self).spec_width(),
                self.height == old(self).spec_height(),
                total == self.spec_width() * self.spec_height(),
                forall|i: int| 0 <= i < k ==> self.data@[i] == background(),
            decreases total - k,
        {
            self.data[k] = Pixl::white();
            k = k + 1;
        }
        proof {
            let w = self.spec_width() as int;
            let h = self.spec_height() as int;
            assert forall|x: int, y: int|
                0 <= x < w && 0 <= y < h implies self.pix(x, y) == background() by {
                lemma_index_bound(w, h, x, y);
            }
        }
    }

    /// An exact pixel-for-pixel copy of this canvas.
    pub fn duplicate(&self) -> (r: Image)
        requires
            self.wf(),
        ensures
            r.same_content(*self),
            r.wf(),
    {
        let mut data: Vec<Pixl> = Vec::new();
        let total: usize = self.data.len();
        let mut k: usize = 0;
        while k < total
            invariant
                k <= total,
                self.data@.len() == total,
                data@.len() == k,
                forall|i: int| 0 <= i < k ==> data@[i] == self.data@[i],
            decreases total - k,
        {
            data.push(self.data[k]);
            k = k + 1;
        }
        proof {
            assert(data@ =~= self.data@);
        }
        Image { width: self.width, height: self.height, data }
    }

    /// Paints `p` on every canvas pixel whose integer distance to
    /// `(cx, cy)` is at most `r` (the `in_disk` rule); the rest of the
    /// canvas is untouched. The disk is clipped to the canvas.
    pub fn fill_circle(&mut self, cx: u32, cy: u32, r: u32, p: Pixl)
        requires
            old(self).wf(),
        ensures
            final(self).wf(),
            final(self).spec_width() == old(self).spec_width(),
            final(self).spec_height() == old(self).spec_height(),
            forall|i: int, j: int|
                0 <= i < old(self).spec_width() && 0 <= j < old(self).spec_height()
                    ==> final(self).pix(i, j) == (if in_disk(
                    cx as int,
                    cy as int,
                    i,
                    j,
                    r as int,
                ) {
                    p
                } else {
                    old(self).pix(i, j)
                }),
    {
        let w = self.width;
        let h = self.height;
        if (cx as u64) > (r as u64) + (w as u64 - 1) || (cy as u64) > (r as u64) + (h as u64
            - 1) {
            // The disk misses the canvas entirely.
            proof {
                assert forall|i: int, j: int|
                    0 <= i < w && 0 <= j < h implies !in_disk(
                    cx as int,
                    cy as int,
                    i,
                    j,
                    r as int,
                ) by {
                    if in_disk(cx as int, cy as int, i, j, r as int) {
                        lemma_disk_in_box(cx as int, cy as int, i, j, r as int);
                    }
                }
            }
            return ;
        }
        let ylo: u64 = if (cy as u64) > (r as u64) {
            cy as u64 - r as u64
        } else {
            0
        };
        let yhi: u64 = if (cy as u64) + (r as u64) <= (h as u64) - 1 {
            (cy as u64) + (r as u64)
        } else {
            (h as u64) - 1
        };
        let xlo: u64 = if (cx as u64) > (r as u64) {
            cx as u64 - r as u64
        } else {
            0
        };
        let xhi: u64 = if (cx as u64) + (r as u64) <= (w as u64) - 1 {
            (cx as u64) + (r as u64)
        } else {
            (w as u64) - 1
        };
        let mut py: u64 = ylo;
        proof {
            assert forall|i: int, j: int|
                0 <= i < w && 0 <= j < h && in_disk(cx as int, cy as int, i, j, r as int)
                    implies ylo <= j by {
                lemma_disk_in_box(cx as int, cy as int, i, j, r as int);
            }
        }
        while py <= yhi
            invariant
                old(self).wf(),
                self.wf(),
                w == old(self).spec_width(),
                h == old(self).spec_height(),
                self.spec_width() == w,
                self.spec_height() == h,
                ylo as int == if cy >= r {
                    cy as int - r as int
                } else {
                    0
                },
                yhi as int == if cy as int + r as int <= h as int - 1 {
                    cy as int + r as int
                } else {
                    h as int - 1
                },
                xlo as int == if cx >= r {
                    cx as int - r as int
                } else {
                    0
                },
                xhi as int == if cx as int + r as int <= w as int - 1 {
                    cx as int + r as int
                } else {
                    w as int - 1
                },
                xlo <= xhi < w,
                ylo <= py <= yhi + 1,
                yhi < h,
                forall|i: int, j: int|
                    0 <= i < w && 0 <= j < h ==> self.pix(i, j) == (if in_disk(
                        cx as int,
                        cy as int,
                        i,
                        j,
                        r as int,
                    ) && j < py {
                        p
                    } else {
                        old(self).pix(i, j)
                    }),
            decreases yhi + 1 - py,
        {
            let mut px: u64 = xlo;
            proof {
                assert forall|i: int, j: int|
                    0 <= i < w && 0 <= j < h && in_disk(cx as int, cy as int, i, j, r as int)
                        implies xlo <= i <= xhi by {
                    lemma_disk_in_box(cx as int, cy as int, i, j, r as int);
                }
            }
            while px <= xhi
                invariant
                    old(self).wf(),
                    self.wf(),
                    w == old(self).spec_width(),
                    h == old(self).spec_height(),
                    self.spec_width() == w,
                    self.spec_height() == h,
                    xlo <= px <= xhi + 1,
                    xhi < w,
                    ylo <= py <= yhi,
                    yhi < h,
                    forall|i: int, j: int|
                        0 <= i < w && 0 <= j < h && in_disk(cx as int, cy as int, i, j, r as int)
                            ==> xlo <= i <= xhi,
                    forall|i: int, j: int|
                        0 <= i < w && 0 <= j < h ==> self.pix(i, j) == (if in_disk(
                            cx as int,
                            cy as int,
                            i,
                            j,
                            r as int,
                        ) && (j < py || (j == py && i < px)) {
                            p
                        } else {
                            old(self).pix(i, j)
                        }),
                decreases xhi + 1 - px,
            {
                let dx: i128 = px as i128 - cx as i128;
                let dy: i128 = py as i128 - cy as i128;
                proof {
                    assert(0 <= dx * dx < 0x10000000000000000) by (nonlinear_arith)
                        requires
                            -0xffffffff <= dx <= 0xffffffff,
                    ;
                    assert(0 <= dy * dy < 0x10000000000000000) by (nonlinear_arith)
                        requires
                            -0xffffffff <= dy <= 0xffffffff,
                    ;
                    assert((r as int + 1) * (r as int + 1) <= 0x10000000000000000)
                        by (nonlinear_arith)
                        requires
                            0 <= r as int <= 0xffffffff,
                    ;
                }
                let rr: i128 = (r as i128 + 1) * (r as i128 + 1);
                if dx * dx + dy * dy < rr {
                    self.put_pixel(px as u32, py as u32, p);
                }
                px = px + 1;
            }
            py = py + 1;
        }
        proof {
            assert forall|i: int, j: int|
                0 <= i < w && 0 <= j < h && in_disk(cx as int, cy as int, i, j, r as int)
                    implies j <= yhi by {
                lemma_disk_in_box(cx as int, cy as int, i, j, r as int);
            }
        }
    }

    /// The sub-canvas covering exactly `area`, both bounds inclusive:
    /// `(right - left + 1)` columns by `(bottom - top + 1)` rows.
    ///
    /// Rejects an unordered rectangle with `InvalidDimensions` and one
    /// that escapes the canvas with `GeometryUnderflow`.
    pub fn extract(&self, area: &Geometry) -> (r: Result<Image, CaptchaError>)
        requires
            self.wf(),
        ensures
            r is Ok <==> area.within(self.spec_width() as int, self.spec_height() as int),
            r is Err ==> r->Err_0 == (if area.ordered() {
                CaptchaError::GeometryUnderflow
            } else {
                CaptchaError::InvalidDimensions
            }),
            r is Ok ==> {
                &&& r->Ok_0.wf()
                &&& r->Ok_0.spec_width() == area.spec_cols()
                &&& r->Ok_0.spec_height() == area.spec_rows()
                &&& forall|i: int, j: int|
                    0 <= i < area.spec_cols() && 0 <= j < area.spec_rows()
                        ==> r->Ok_0.pix(i, j) == self.pix(area.left + i, area.top + j)
            },
    {
        if area.left > area.right || area.top > area.bottom {
            return Err(CaptchaError::InvalidDimensions);
        }
        if area.right >= self.width || area.bottom >= self.height {
            return Err(CaptchaError::GeometryUnderflow);
        }
        let w2: u32 = area.right - area.left + 1;
        let h2: u32 = area.bottom - area.top + 1;
        proof {
            assert(w2 * h2 <= self.spec_width() * self.spec_height()) by (nonlinear_arith)
                requires
                    1 <= w2 <= self.spec_width(),
                    1 <= h2 <= self.spec_height(),
            ;
        }
        let mut data: Vec<Pixl> = Vec::new();
        let mut j: u32 = 0;
        while j < h2
            invariant
                self.wf(),
                w2 == area.right - area.left + 1,
                h2 == area.bottom - area.top + 1,
                area.within(self.spec_width() as int, self.spec_height() as int),
                j <= h2,
                data@.len() == j * w2,
                w2 * h2 <= self.spec_width() * self.spec_height(),
                forall|k: int|
                    0 <= k < data@.len() ==> #[trigger] data@[k] == self.pix(
                        area.left + (k % (w2 as int)),
                        area.top + (k / (w2 as int)),
                    ),
            decreases h2 - j,
        {
            let mut i: u32 = 0;
            while i < w2
                invariant
                    self.wf(),
                    w2 == area.right - area.left + 1,
                    h2 == area.bottom - area.top + 1,
                    area.within(self.spec_width() as int, self.spec_height() as int),
                    j < h2,
                    i <= w2,
                    data@.len() == j * w2 + i,
                    w2 * h2 <= self.spec_width() * self.spec_height(),
                    forall|k: int|
                        0 <= k < data@.len() ==> #[trigger] data@[k] == self.pix(
                            area.left + (k % (w2 as int)),
                            area.top + (k / (w2 as int)),
                        ),
                decreases w2 - i,
            {
                proof {
                    lemma_index_bound(w2 as int, h2 as int, i as int, j as int);
                    vstd::arithmetic::div_mod::lemma_fundamental_div_mod_converse(
                        j * w2 + i,
                        w2 as int,
                        j as int,
                        i as int,
                    );
                }
                data.push(self.get_pixel(area.left + i, area.top + j));
                i = i + 1;
            }
            proof {
                assert(j * w2 + w2 == (j + 1) * w2) by (nonlinear_arith);
            }
            j = j + 1;
        }
        let out = Image { width: w2, height: h2, data };
        proof {
            assert(h2 * w2 == w2 * h2) by (nonlinear_arith);
            assert(out.wf());
            assert forall|ii: int, jj: int|
                0 <= ii < w2 && 0 <= jj < h2 implies out.pix(ii, jj) == self.pix(
                area.left + ii,
                area.top + jj,
            ) by {
                lemma_index_bound(w2 as int, h2 as int, ii, jj);
                vstd::arithmetic::div_mod::lemma_fundamental_div_mod_converse(
                    jj * w2 + ii,
                    w2 as int,
                    jj,
                    ii,
                );
            }
        }
        Ok(out)
    }

    /// Replaces every pixel that is exactly the marker color by `color`;
    /// every other pixel keeps its value. This is the deferred coloring
    /// step applied at export time.
    pub fn set_color(&mut self, color: &[u8; 3])
        requires
            old(self).wf(),
        ensures
            final(self).wf(),
            final(self).spec_width() == old(self).spec_width(),
            final(self).spec_height() == old(self).spec_height(),
            forall|i: int, j: int|
                0 <= i < old(self).spec_width() && 0 <= j < old(self).spec_height()
                    ==> final(self).pix(i, j) == (if old(self).pix(i, j) == marker() {
                    Pixl { r: color[0], g: color[1], b: color[2] }
                } else {
                    old(self).pix(i, j)
                }),
    {
        let w = self.width;
        let h = self.height;
        let fg = Pixl::new(color[0], color[1], color[2]);
        let mut y: u32 = 0;
        while y < h
            invariant
                old(self).wf(),
                self.wf(),
                w == old(self).spec_width(),
                h == old(self).spec_height(),
                self.spec_width() == w,
                self.spec_height() == h,
                y <= h,
                fg == (Pixl { r: color[0], g: color[1], b: color[2] }),
                forall|i: int, j: int|
                    0 <= i < w && 0 <= j < h ==> self.pix(i, j) == (if old(self).pix(i, j)
                        == marker() && j < y {
                        fg
                    } else {
                        old(self).pix(i, j)
                    }),
            decreases h - y,
        {
            let mut x: u32 = 0;
            while x < w
                invariant
                    old(self).wf(),
                    self.wf(),
                    w == old(self).spec_width(),
                    h == old(self).spec_height(),
                    self.spec_width() == w,
                    self.spec_height() == h,
                    y < h,
                    x <= w,
                    fg == (Pixl { r: color[0], g: color[1], b: color[2] }),
                    forall|i: int, j: int|
                        0 <= i < w && 0 <= j < h ==> self.pix(i, j) == (if old(self).pix(i, j)
                            == marker() && (j < y || (j == y && i < x)) {
                            fg
                        } else {
                            old(self).pix(i, j)
                        }),
                decreases w - x,
            {
                let c = self.get_pixel(x, y);
                if c == Pixl::black() {
                    self.put_pixel(x, y, fg);
                }
                x = x + 1;
            }
            y = y + 1;
        }
    }

    /// Copies `other` onto this canvas with its top-left corner at
    /// `(x, y)`, with `put_pixel` semantics: parts that fall outside this
    /// canvas are silently clipped.
    pub fn add_image(&mut self, x: u32, y: u32, other: &Image)
        requires
            old(self).wf(),
            other.wf(),
        ensures
            final(self).wf(),
            composited(*old(self), *other, x as int, y as int, *final(self)),
    {
        let w = self.width;
        let h = self.height;
        let ow = other.width();
        let oh = other.height();
        let mut iy: u32 = 0;
        while iy < oh
            invariant
                old(self).wf(),
                self.wf(),
                other.wf(),
                w == old(self).spec_width(),
                h == old(self).spec_height(),
                self.spec_width() == w,
                self.spec_height() == h,
                ow == other.spec_width(),
                oh == other.spec_height(),
                iy <= oh,
                forall|i: int, j: int|
                    0 <= i < w && 0 <= j < h ==> self.pix(i, j) == (if x <= i < x + ow && y <= j
                        < y + iy {
                        other.pix(i - x, j - y)
                    } else {
                        old(self).pix(i, j)
                    }),
            decreases oh - iy,
        {
            let mut ix: u32 = 0;
            while ix < ow
                invariant
                    old(self).wf(),
                    self.wf(),
                    other.wf(),
                    w == old(self).spec_width(),
                    h == old(self).spec_height(),
                    self.spec_width() == w,
                    self.spec_height() == h,
                    ow == other.spec_width(),
                    oh == other.spec_height(),
                    iy < oh,
                    ix <= ow,
                    forall|i: int, j: int|
                        0 <= i < w && 0 <= j < h ==> self.pix(i, j) == (if x <= i < x + ow && (y
                            <= j < y + iy || (j == y + iy && x <= i < x + ix)) {
                            other.pix(i - x, j - y)
                        } else {
                            old(self).pix(i, j)
                        }),
                decreases ow - ix,
            {
                let p = other.get_pixel(ix, iy);
                if (x as u64) + (ix as u64) < (w as u64) && (y as u64) + (iy as u64) < (h
                    as u64) {
                    self.put_pixel(x + ix, y + iy, p);
                }
                ix = ix + 1;
            }
            iy = iy + 1;
        }
    }

    /// The canvas's raw byte buffer: three bytes per pixel, row-major.
    pub open spec fn raw_bytes(self) -> Seq<u8> {
        raw_of(self.pixels())
    }

    /// Flattens the pixel grid into its raw RGB bytes.
    fn to_raw(&self) -> (r: Vec<u8>)
        requires
            self.wf(),
        ensures
            r@ == self.raw_bytes(),
    {
        let total: usize = self.data.len();
        let mut out: Vec<u8> = Vec::new();
        let mut k: usize = 0;
        while k < total
            invariant
                self.wf(),
                k <= total,
                total == self.pixels().len(),
                out@.len() == 3 * k,
                forall|q: int| 0 <= q < out@.len() ==> out@[q] == self.raw_bytes()[q],
            decreases total - k,
        {
            let p = self.data[k];
            proof {
                vstd::arithmetic::div_mod::lemma_fundamental_div_mod_converse(
                    3 * k,
                    3,
                    k as int,
                    0,
                );
                vstd::arithmetic::div_mod::lemma_fundamental_div_mod_converse(
                    3 * k + 1,
                    3,
                    k as int,
                    1,
                );
                vstd::arithmetic::div_mod::lemma_fundamental_div_mod_converse(
                    3 * k + 2,
                    3,
                    k as int,
                    2,
                );
            }
            out.push(p.r);
            out.push(p.g);
            out.push(p.b);
            k = k + 1;
        }
        proof {
            assert(out@ =~= self.raw_bytes());
        }
        out
    }

    /// The canvas serialized as a PNG byte stream, or `None` when the
    /// encoder fails.
    pub fn as_png(&self) -> (r: Option<Vec<u8>>)
        requires
            self.wf(),
        ensures
            r is Some <==> png_encoding_of(
                self.raw_bytes(),
                self.spec_width() as nat,
                self.spec_height() as nat,
            ) is Some,
            r is Some ==> r->0@ == png_encoding_of(
                self.raw_bytes(),
                self.spec_width() as nat,
                self.spec_height() as nat,
            )->0,
    {
        let raw = self.to_raw();
        proof {
            assert((self.spec_width() * self.spec_height()) * 3 == 3 * (self.spec_width() as int)
                * (self.spec_height() as int)) by (nonlinear_arith);
        }
        png_encode(&raw, self.width as usize, self.height as usize)
    }

    /// The canvas a PNG byte stream decodes to: `None` when the bytes do
    /// not decode, or decode to a raster this crate cannot hold.
    pub fn from_png(v: Vec<u8>) -> (r: Option<Image>)
        ensures
            r is Some <==> decodes_to_raster(v@),
            r is Some ==> {
                let d = png_decoding_of(v@)->0;
                &&& r->0.wf()
                &&& r->0.spec_width() == d.0
                &&& r->0.spec_height() == d.1
                &&& r->0.pixels() == pixels_of_raw(d.2)
            },
    {
        let decoded = png_decode(&v);
        match decoded {
            None => None,
            Some((w, h, d)) => {
                if w < 1 || h < 1 {
                    return None;
                }
                let total: usize = match (w as usize).checked_mul(h as usize) {
                    None => {
                        return None;
                    },
                    Some(t) => t,
                };
                let t3: usize = match total.checked_mul(3) {
                    None => {
                        // the buffer cannot be three bytes per pixel: its
                        // length already fits this machine
                        let n: usize = d.len();
                        return None;
                    },
                    Some(t) => t,
                };
                if d.len() != t3 {
                    return None;
                }
                let mut data: Vec<Pixl> = Vec::new();
                let mut i: usize = 0;
                while i < total
                    invariant
                        i <= total,
                        3 * total == t3,
                        d@.len() == t3,
                        data@.len() == i,
                        forall|q: int|
                            0 <= q < i ==> data@[q] == (Pixl {
                                r: d@[3 * q],
                                g: d@[3 * q + 1],
                                b: d@[3 * q + 2],
                            }),
                    decreases total - i,
                {
                    proof {
                        assert(3 * i + 2 < t3) by (nonlinear_arith)
                            requires
                                i < total,
                                3 * total == t3,
                        ;
                    }
                    let p = Pixl::new(d[3 * i], d[3 * i + 1], d[3 * i + 2]);
                    data.push(p);
                    i = i + 1;
                }
                let out = Image { width: w, height: h, data };
                proof {
                    vstd::arithmetic::div_mod::lemma_div_multiples_vanish(total as int, 3);
                    assert(out.pixels() =~= pixels_of_raw(d@));
                }
                Some(out)
            },
        }
    }
}

/// What lodepng's `encode_memory` returns for a raw 8-bit RGB buffer of
/// the given dimensions: the PNG bytes, or nothing when encoding fails.
pub uninterp spec fn png_encoding_of(rgb: Seq<u8>, w: nat, h: nat) -> Option<Seq<u8>>;

/// What the PNG decoder returns for a byte stream: width, height and the
/// raw 8-bit RGB buffer, or nothing when the bytes are not a valid image.
pub uninterp spec fn png_decoding_of(bytes: Seq<u8>) -> Option<(nat, nat, Seq<u8>)>;

/// Relies on lodepng's `encode_memory` with 8-bit RGB channels: the
/// encoding is a function of the raw buffer and the dimensions alone.
/// The buffer must hold exactly three bytes per pixel: on a mismatch the
/// library asserts in debug builds, so such inputs are excluded here.
#[verifier::external_body]
fn png_encode(rgb: &Vec<u8>, w: usize, h: usize) -> (r: Option<Vec<u8>>)
    requires
        rgb@.len() == 3 * (w as int) * (h as int),
    ensures
        r is Some <==> png_encoding_of(rgb@, w as nat, h as nat) is Some,
        r is Some ==> r->0@ == png_encoding_of(rgb@, w as nat, h as nat)->0,
{
    lodepng::encode_memory(rgb, w, h, lodepng::ColorType::RGB, 8).ok()
}

/// Relies on image's `load_from_memory` and `DynamicImage::to_rgb8`: the
/// decoded dimensions and RGB bytes are a function of the input alone.
#[verifier::external_body]
fn png_decode(bytes: &Vec<u8>) -> (r: Option<(u32, u32, Vec<u8>)>)
    ensures
        r is Some <==> png_decoding_of(bytes@) is Some,
        r is Some ==> {
            let t = r->0;
            let d = png_decoding_of(bytes@)->0;
            t.0 as nat == d.0 && t.1 as nat == d.1 && t.2@ == d.2
        },
{
    match ::image::load_from_memory(bytes) {
        Ok(di) => {
            let rgb = di.to_rgb8();
            let w = rgb.width();
            let h = rgb.height();
            Some((w, h, rgb.into_raw()))
        },
        Err(_) => None,
    }
}

/// The pixels a raw RGB byte buffer holds: one per three bytes.
pub open spec fn pixels_of_raw(d: Seq<u8>) -> Seq<Pixl> {
    Seq::new((d.len() / 3) as nat, |i: int| Pixl { r: d[3 * i], g: d[3 * i + 1], b: d[3 * i + 2] })
}

/// The bytes decode to a raster this crate can hold: positive dimensions
/// that fit the machine and a buffer of exactly three bytes per pixel.
pub open spec fn decodes_to_raster(v: Seq<u8>) -> bool {
    match png_decoding_of(v) {
        Some(d) => 1 <= d.0 && 1 <= d.1 && d.0 * d.1 <= usize::MAX && d.2.len() == 3 * (d.0
            * d.1),
        None => false,
    }
}

/// The raw RGB byte buffer of a pixel sequence: three bytes per pixel.
pub open spec fn raw_of(pixels: Seq<Pixl>) -> Seq<u8> {
    Seq::new(
        (pixels.len() * 3) as nat,
        |k: int|
            {
                let p = pixels[k / 3];
                if k % 3 == 0 {
                    p.r
                } else if k % 3 == 1 {
                    p.g
                } else {
                    p.b
                }
            },
    )
}

/// Connects flat buffer indices with grid coordinates: entry `k` of the
/// pixel buffer is the pixel at column `k % w`, row `k / w`.
pub proof fn lemma_pix_of_index(img: Image, k: int)
    requires
        img.wf(),
        0 <= k < img.pixels().len(),
    ensures
        0 <= k % (img.spec_width() as int) < img.spec_width(),
        0 <= k / (img.spec_width() as int) < img.spec_height(),
        img.pixels()[k] == img.pix(k % (img.spec_width() as int), k / (img.spec_width() as int)),
{
    let w = img.spec_width() as int;
    let h = img.spec_height() as int;
    vstd::arithmetic::div_mod::lemma_fundamental_div_mod(k, w);
    vstd::arithmetic::div_mod::lemma_mod_bound(k, w);
    vstd::arithmetic::div_mod::lemma_div_pos_is_pos(k, w);
    assert(k / w < h) by (nonlinear_arith)
        requires
            k == w * (k / w) + k % w,
            0 <= k % w < w,
            0 <= k / w,
            k < w * h,
    ;
    assert((k / w) * w + k % w == k) by (nonlinear_arith)
        requires
            k == w * (k / w) + k % w,
    ;
}

/// `out` is `base` with a `gw x gh` pixel grid `gp` copied onto it at
/// offset `(x, y)`, clipped to `base`'s bounds.
pub open spec fn pasted(
    base: Image,
    gw: int,
    gh: int,
    gp: Seq<Pixl>,
    x: int,
    y: int,
    out: Image,
) -> bool {
    &&& out.spec_width() == base.spec_width()
    &&& out.spec_height() == base.spec_height()
    &&& forall|i: int, j: int|
        0 <= i < base.spec_width() && 0 <= j < base.spec_height() ==> out.pix(i, j) == (if x <= i
            < x + gw && y <= j < y + gh {
            gp[(j - y) * gw + (i - x)]
        } else {
            base.pix(i, j)
        })
}

/// `out` is `base` with `top` copied onto it at offset `(x, y)`, clipped
/// to `base`'s bounds.
pub open spec fn composited(base: Image, top: Image, x: int, y: int, out: Image) -> bool {
    &&& out.spec_width() == base.spec_width()
    &&& out.spec_height() == base.spec_height()
    &&& forall|i: int, j: int|
        0 <= i < base.spec_width() && 0 <= j < base.spec_height() ==> out.pix(i, j) == (if x <= i
            < x + top.spec_width() && y <= j < y + top.spec_height() {
            top.pix(i - x, j - y)
        } else {
            base.pix(i, j)
        })
}

/// A canvas that agrees with another pixel for pixel, at equal
/// dimensions, has the same content. In particular, `extract` of the full
/// canvas rectangle returns a canvas pixel-identical to the original: the
/// premises are exactly what `extract` ensures of its result when it is
/// called on the rectangle covering the whole source.
pub proof fn lemma_pixelwise_equal_is_identity(src: Image, out: Image)
    requires
        src.wf(),
        out.wf(),
        out.spec_width() == src.spec_width(),
        out.spec_height() == src.spec_height(),
        forall|i: int, j: int|
            0 <= i < src.spec_width() && 0 <= j < src.spec_height() ==> out.pix(i, j) == src.pix(
                i,
                j,
            ),
    ensures
        out.same_content(src),
{
    let w = src.spec_width() as int;
    let h = src.spec_height() as int;
    assert forall|k: int| 0 <= k < out.pixels().len() implies out.pixels()[k] == src.pixels()[k] by {
        vstd::arithmetic::div_mod::lemma_fundamental_div_mod(k, w);
        vstd::arithmetic::div_mod::lemma_mod_bound(k, w);
        vstd::arithmetic::div_mod::lemma_div_pos_is_pos(k, w);
        let i = k % w;
        let j = k / w;
        assert(j < h) by (nonlinear_arith)
            requires
                k == j * w + i,
                0 <= i < w,
                0 <= j,
                k < w * h,
        ;
        assert(out.pix(i, j) == src.pix(i, j));
    }
    assert(out.pixels() =~= src.pixels());
}

} // verus!
