use vstd::prelude::*;

use crate::error::CaptchaError;
use crate::filters::Filter;
use crate::geometry::Geometry;
use crate::images::{in_disk, lemma_disk_in_box, lemma_index_bound, Image};
use crate::pixel::inverted;
use crate::rng::RandomSource;

verus! {

/// The pixel lies in one of the first `t` recorded circles; a record
/// holds a center column, a center row and a radius.
pub open spec fn covered_by_first(draws: Seq<(int, int, int)>, t: int, x: int, y: int) -> bool
    recommends
        t <= draws.len(),
{
    exists|u: int| 0 <= u < t && in_disk((#[trigger] draws[u]).0, draws[u].1, x, y, draws[u].2)
}

/// The pixel lies in one of the recorded circles.
pub open spec fn covered_by(draws: Seq<(int, int, int)>, x: int, y: int) -> bool {
    covered_by_first(draws, draws.len() as int, x, y)
}

/// The pixel may serve as the center of circle `t`: it is the seed
/// itself, or an on-canvas pixel one of the earlier circles covers.
pub open spec fn growth_candidate(
    seed: (int, int),
    draws: Seq<(int, int, int)>,
    t: int,
    w: int,
    h: int,
    x: int,
    y: int,
) -> bool {
    ||| (x == seed.0 && y == seed.1)
    ||| (0 <= x < w && 0 <= y < h && covered_by_first(draws, t, x, y))
}

/// The recorded circles form a blob grown from `seed` on a `w x h`
/// canvas: the seed lies inside `area`, every radius is within the
/// configured range, and every circle is centered on the seed or on a
/// pixel an earlier circle covers, which keeps the cluster connected.
pub open spec fn blob_trace(
    area: Geometry,
    min_radius: int,
    max_radius: int,
    seed: (int, int),
    draws: Seq<(int, int, int)>,
    w: int,
    h: int,
) -> bool {
    &&& area.left <= seed.0 <= area.right
    &&& area.top <= seed.1 <= area.bottom
    &&& forall|t: int|
        0 <= t < draws.len() ==> {
            let d = #[trigger] draws[t];
            &&& min_radius <= d.2 <= max_radius
            &&& growth_candidate(seed, draws, t, w, h, d.0, d.1)
        }
}

/// Coverage by the first `t` records reads only those records, so it is
/// unaffected by what stands beyond them.
pub proof fn lemma_covered_first_prefix(
    a: Seq<(int, int, int)>,
    b: Seq<(int, int, int)>,
    t: int,
    x: int,
    y: int,
)
    requires
        0 <= t <= a.len(),
        t <= b.len(),
        forall|u: int| 0 <= u < t ==> a[u] == b[u],
    ensures
        covered_by_first(a, t, x, y) == covered_by_first(b, t, x, y),
{
    if covered_by_first(a, t, x, y) {
        let u = choose|u: int| 0 <= u < t && in_disk(a[u].0, a[u].1, x, y, a[u].2);
        assert(in_disk(b[u].0, b[u].1, x, y, b[u].2));
    }
    if covered_by_first(b, t, x, y) {
        let u = choose|u: int| 0 <= u < t && in_disk(b[u].0, b[u].1, x, y, b[u].2);
        assert(in_disk(a[u].0, a[u].1, x, y, a[u].2));
    }
}

/// A pixel covered within the first `t1` records is covered within any
/// longer prefix.
pub proof fn lemma_covered_first_mono(
    draws: Seq<(int, int, int)>,
    t1: int,
    t2: int,
    x: int,
    y: int,
)
    requires
        0 <= t1 <= t2,
        covered_by_first(draws, t1, x, y),
    ensures
        covered_by_first(draws, t2, x, y),
{
    let u = choose|u: int| 0 <= u < t1 && in_disk(draws[u].0, draws[u].1, x, y, draws[u].2);
    assert(in_disk(draws[u].0, draws[u].1, x, y, draws[u].2));
}

/// Appending a record covers exactly the union: the old coverage plus
/// the new circle's disk.
pub proof fn lemma_covered_push(draws: Seq<(int, int, int)>, d: (int, int, int), x: int, y: int)
    ensures
        covered_by(draws.push(d), x, y) == (covered_by(draws, x, y) || in_disk(
            d.0,
            d.1,
            x,
            y,
            d.2,
        )),
{
    let b = draws.push(d);
    if covered_by(b, x, y) {
        let u = choose|u: int| 0 <= u < b.len() && in_disk(b[u].0, b[u].1, x, y, b[u].2);
        if u < draws.len() {
            assert(b[u] == draws[u]);
            assert(in_disk(draws[u].0, draws[u].1, x, y, draws[u].2));
        } else {
            assert(b[u] == d);
        }
    }
    if covered_by(draws, x, y) {
        let u = choose|u: int|
            0 <= u < draws.len() && in_disk(draws[u].0, draws[u].1, x, y, draws[u].2);
        assert(in_disk(b[u].0, b[u].1, x, y, b[u].2));
    }
    if in_disk(d.0, d.1, x, y, d.2) {
        assert(b[draws.len() as int] == d);
        assert(in_disk(
            b[draws.len() as int].0,
            b[draws.len() as int].1,
            x,
            y,
            b[draws.len() as int].2,
        ));
    }
}

/// Grows a connected cluster of overlapping random circles ("blobs") and
/// inverts every pixel the circles cover, once per unique pixel. Growth
/// starts from one random seed point inside `geometry` (default: the
/// whole canvas); each of the `n` circles is centered on a pixel already
/// reached, which keeps the cluster connected.
pub struct Cow {
    pub min_radius: u32,
    pub max_radius: u32,
    pub n: u32,
    pub allow_duplicates: bool,
    pub geometry: Option<Geometry>,
}

impl Cow {
    pub fn new() -> (c: Cow)
        ensures
            c == (Cow {
                min_radius: 10,
                max_radius: 20,
                n: 3,
                allow_duplicates: true,
                geometry: None,
            }),
    {
        Cow { min_radius: 10, max_radius: 20, n: 3, allow_duplicates: true, geometry: None }
    }

    pub fn circles(self, n: u32) -> (c: Cow)
        ensures
            c == (Cow { n, ..self }),
    {
        Cow { n, ..self }
    }

    pub fn min_radius(self, min_radius: u32) -> (c: Cow)
        ensures
            c == (Cow { min_radius, ..self }),
    {
        Cow { min_radius, ..self }
    }

    pub fn max_radius(self, max_radius: u32) -> (c: Cow)
        ensures
            c == (Cow { max_radius, ..self }),
    {
        Cow { max_radius, ..self }
    }

    /// Restricts the seed point to `g`; both right and bottom are
    /// inclusive.
    pub fn area(self, g: Geometry) -> (c: Cow)
        ensures
            c == (Cow { geometry: Some(g), ..self }),
    {
        Cow { geometry: Some(g), ..self }
    }

    /// The parameters fit a `w x h` canvas: the radius range is ordered
    /// and the seed area, when given, is non-empty and on the canvas.
    pub open spec fn valid_for(self, w: int, h: int) -> bool {
        &&& self.min_radius <= self.max_radius
        &&& match self.geometry {
            Some(g) => g.within(w, h),
            None => true,
        }
    }

    /// The area the seed is drawn from: the configured one, or the whole
    /// canvas.
    pub open spec fn seed_area(self, w: int, h: int) -> Geometry {
        match self.geometry {
            Some(g) => g,
            None => Geometry { left: 0, right: (w - 1) as u32, top: 0, bottom: (h - 1) as u32 },
        }
    }

    /// `out` is `base` with exactly the pixels of one recorded blob
    /// inverted: the `n` circles grow from a seed inside the filter's
    /// area by the `blob_trace` rule, and a pixel is inverted once
    /// exactly when some circle covers it.
    pub open spec fn blob_applied(
        self,
        base: Image,
        out: Image,
        seed: (int, int),
        draws: Seq<(int, int, int)>,
    ) -> bool {
        let w = base.spec_width() as int;
        let h = base.spec_height() as int;
        &&& draws.len() == self.n
        &&& blob_trace(
            self.seed_area(w, h),
            self.min_radius as int,
            self.max_radius as int,
            seed,
            draws,
            w,
            h,
        )
        &&& forall|i: int, j: int|
            0 <= i < w && 0 <= j < h ==> out.pix(i, j) == (if covered_by(draws, i, j) {
                inverted(base.pix(i, j))
            } else {
                base.pix(i, j)
            })
    }

    /// Grows the blob and inverts the covered pixels: the result is
    /// exactly one recorded blob applied to the canvas, so every pixel
    /// either keeps its value or is inverted, and each covered pixel is
    /// inverted exactly once. With no circles nothing is inverted and
    /// the canvas is unchanged; with at least one circle, at least one
    /// pixel is inverted. Malformed parameters are rejected before the
    /// canvas is touched.
    pub fn smudge(&self, img: &mut Image, rng: &mut RandomSource) -> (r: Result<
        (),
        CaptchaError,
    >)
        requires
            old(img).wf(),
        ensures
            final(img).wf(),
            final(img).spec_width() == old(img).spec_width(),
            final(img).spec_height() == old(img).spec_height(),
            r is Ok <==> self.valid_for(
                old(img).spec_width() as int,
                old(img).spec_height() as int,
            ),
            r is Err ==> final(img).same_content(*old(img)) && r->Err_0
                == CaptchaError::InvalidFilterParameter,
            r is Ok ==> exists|seed: (int, int), draws: Seq<(int, int, int)>|
                self.blob_applied(*old(img), *final(img), seed, draws),
            r is Ok ==> forall|i: int, j: int|
                0 <= i < old(img).spec_width() && 0 <= j < old(img).spec_height()
                    ==> (final(img).pix(i, j) == old(img).pix(i, j) || final(img).pix(i, j)
                    == inverted(old(img).pix(i, j))),
            r is Ok && self.n == 0 ==> final(img).same_content(*old(img)),
            r is Ok && self.n >= 1 ==> exists|i: int, j: int|
                0 <= i < old(img).spec_width() && 0 <= j < old(img).spec_height()
                    && #[trigger] final(img).pix(i, j) == inverted(old(img).pix(i, j))
                    && final(img).pix(i, j) != old(img).pix(i, j),
    {
        let w = img.width();
        let h = img.height();
        if self.min_radius > self.max_radius {
            return Err(CaptchaError::InvalidFilterParameter);
        }
        let g: Geometry = match &self.geometry {
            Some(g0) => {
                if g0.left > g0.right || g0.right >= w || g0.top > g0.bottom || g0.bottom >= h {
                    return Err(CaptchaError::InvalidFilterParameter);
                }
                *g0
            },
            None => Geometry::new(0, w - 1, 0, h - 1),
        };
        proof {
            assert(g == self.seed_area(w as int, h as int));
        }
        let total: usize = img.pixel_count();
        // One mark per canvas pixel: set when a circle covers the pixel.
        let mut covered: Vec<bool> = Vec::new();
        // One mark per canvas pixel: set when the pixel is already a
        // growth candidate (used when duplicates are suppressed).
        let mut grown: Vec<bool> = Vec::new();
        let mut k: usize = 0;
        while k < total
            invariant
                k <= total,
                covered@.len() == k,
                grown@.len() == k,
                forall|q: int| 0 <= q < k ==> covered@[q] == false,
            decreases total - k,
        {
            covered.push(false);
            grown.push(false);
            k = k + 1;
        }
        let sx = rng.in_range(g.left, g.right);
        let sy = rng.in_range(g.top, g.bottom);
        let ghost gseed: (int, int) = (sx as int, sy as int);
        let ghost mut draws: Seq<(int, int, int)> = Seq::empty();
        let mut pixels: Vec<(u32, u32)> = Vec::new();
        pixels.push((sx, sy));
        proof {
            lemma_index_bound(w as int, h as int, sx as int, sy as int);
        }
        let seed_idx: usize = (sy as usize) * (w as usize) + (sx as usize);
        grown[seed_idx] = true;
        let mut t: u32 = 0;
        while t < self.n
            invariant
                old(img).wf(),
                img.wf(),
                w == old(img).spec_width(),
                h == old(img).spec_height(),
                img.spec_width() == w,
                img.spec_height() == h,
                img.same_content(*old(img)),
                self.min_radius <= self.max_radius,
                t <= self.n,
                total == w * h,
                covered@.len() == total,
                grown@.len() == total,
                pixels@.len() >= 1,
                g == self.seed_area(w as int, h as int),
                draws.len() == t,
                blob_trace(
                    g,
                    self.min_radius as int,
                    self.max_radius as int,
                    gseed,
                    draws,
                    w as int,
                    h as int,
                ),
                forall|q: int|
                    0 <= q < pixels@.len() ==> (#[trigger] pixels@[q]).0 < w && pixels@[q].1 < h,
                forall|q: int|
                    0 <= q < pixels@.len() ==> growth_candidate(
                        gseed,
                        draws,
                        draws.len() as int,
                        w as int,
                        h as int,
                        ((#[trigger] pixels@[q]).0) as int,
                        (pixels@[q].1) as int,
                    ),
                forall|q: int|
                    0 <= q < total && #[trigger] covered@[q] ==> covered_by(
                        draws,
                        q % (w as int),
                        q / (w as int),
                    ),
                forall|q: int|
                    0 <= q < total && covered_by(draws, q % (w as int), q / (w as int))
                        ==> #[trigger] covered@[q],
                self.n == 0 ==> forall|q: int| 0 <= q < total ==> covered@[q] == false,
                t >= 1 ==> exists|q: int| 0 <= q < total && #[trigger] covered@[q] == true,
            decreases self.n - t,
        {
            let len32: u32 = if pixels.len() >= u32::MAX as usize {
                u32::MAX
            } else {
                pixels.len() as u32
            };
            let pick = rng.below(len32) as usize;
            let center = pixels[pick];
            let cx = center.0;
            let cy = center.1;
            proof {
                lemma_index_bound(w as int, h as int, cx as int, cy as int);
            }
            let cidx: usize = (cy as usize) * (w as usize) + (cx as usize);
            let rad: u32 = if self.min_radius == 0 && self.max_radius == u32::MAX {
                rng.below(u32::MAX)
            } else {
                rng.in_range(self.min_radius, self.max_radius)
            };
            let ghost draws0 = draws;
            proof {
                draws = draws.push((cx as int, cy as int, rad as int));
                let wi = w as int;
                let hi = h as int;
                assert(draws[t as int] == (cx as int, cy as int, rad as int));
                // the extended trace is still a blob: old circles keep their
                // witnesses, and the new one is centered on a candidate
                assert forall|tt: int| 0 <= tt < draws.len() implies {
                    let d = #[trigger] draws[tt];
                    &&& self.min_radius <= d.2 <= self.max_radius
                    &&& growth_candidate(gseed, draws, tt, wi, hi, d.0, d.1)
                } by {
                    if tt < t {
                        assert(draws[tt] == draws0[tt]);
                        if !(draws0[tt].0 == gseed.0 && draws0[tt].1 == gseed.1) {
                            lemma_covered_first_prefix(
                                draws0,
                                draws,
                                tt,
                                draws0[tt].0,
                                draws0[tt].1,
                            );
                        }
                    } else {
                        assert(growth_candidate(
                            gseed,
                            draws0,
                            t as int,
                            wi,
                            hi,
                            cx as int,
                            cy as int,
                        ));
                        if !(cx as int == gseed.0 && cy as int == gseed.1) {
                            lemma_covered_first_prefix(draws0, draws, t as int, cx as int,
                                cy as int);
                        }
                    }
                }
                // growth candidates and the coverage marks carry over
                assert forall|q: int|
                    0 <= q < pixels@.len() implies growth_candidate(
                    gseed,
                    draws,
                    draws.len() as int,
                    wi,
                    hi,
                    ((#[trigger] pixels@[q]).0) as int,
                    (pixels@[q].1) as int,
                ) by {
                    let px0 = (pixels@[q].0) as int;
                    let py0 = (pixels@[q].1) as int;
                    if !(px0 == gseed.0 && py0 == gseed.1) {
                        lemma_covered_first_prefix(draws0, draws, t as int, px0, py0);
                        lemma_covered_first_mono(draws, t as int, draws.len() as int, px0, py0);
                    }
                }
                assert forall|q: int|
                    0 <= q < total && #[trigger] covered@[q] implies covered_by(
                    draws,
                    q % wi,
                    q / wi,
                ) by {
                    lemma_covered_first_prefix(draws0, draws, t as int, q % wi, q / wi);
                    lemma_covered_first_mono(draws, t as int, draws.len() as int, q % wi, q / wi);
                }
                assert forall|q: int|
                    0 <= q < total && covered_by_first(draws, t as int, q % wi, q / wi)
                        implies #[trigger] covered@[q] by {
                    lemma_covered_first_prefix(draws0, draws, t as int, q % wi, q / wi);
                }
            }
            // the center lies in its own disk, whatever the radius
            let ghost cov_c = covered@;
            covered[cidx] = true;
            proof {
                let wi = w as int;
                vstd::arithmetic::div_mod::lemma_fundamental_div_mod_converse(
                    cidx as int,
                    wi,
                    cy as int,
                    cx as int,
                );
                assert((rad as int + 1) * (rad as int + 1) >= 1) by (nonlinear_arith)
                    requires
                        rad as int >= 0,
                ;
                assert(in_disk(cx as int, cy as int, cx as int, cy as int, rad as int));
                assert forall|q: int|
                    0 <= q < total && #[trigger] covered@[q] implies covered_by(
                    draws,
                    q % wi,
                    q / wi,
                ) by {
                    if q == cidx {
                        assert(in_disk(
                            (draws[t as int]).0,
                            (draws[t as int]).1,
                            q % wi,
                            q / wi,
                            (draws[t as int]).2,
                        ));
                    } else {
                        assert(cov_c[q]);
                    }
                }
                assert forall|q: int|
                    0 <= q < total && covered_by_first(draws, t as int, q % wi, q / wi)
                        implies #[trigger] covered@[q] by {
                    if q != cidx {
                        assert(cov_c[q]);
                    }
                }
            }
            let ylo: u64 = if (cy as u64) > (rad as u64) {
                cy as u64 - rad as u64
            } else {
                0
            };
            let yhi: u64 = if (cy as u64) + (rad as u64) <= (h as u64) - 1 {
                (cy as u64) + (rad as u64)
            } else {
                (h as u64) - 1
            };
            let xlo: u64 = if (cx as u64) > (rad as u64) {
                cx as u64 - rad as u64
            } else {
                0
            };
            let xhi: u64 = if (cx as u64) + (rad as u64) <= (w as u64) - 1 {
                (cx as u64) + (rad as u64)
            } else {
                (w as u64) - 1
            };
            let mut py: u64 = ylo;
            proof {
                let wi = w as int;
                assert forall|q: int| #![trigger covered@[q]]
                    0 <= q < total && in_disk(cx as int, cy as int, q % wi, q / wi, rad as int)
                        implies ylo as int <= q / wi && xlo as int <= q % wi <= xhi as int by {
                    lemma_disk_in_box(cx as int, cy as int, q % wi, q / wi, rad as int);
                }
            }
            while py <= yhi
                invariant
                    old(img).wf(),
                    img.wf(),
                    w == old(img).spec_width(),
                    h == old(img).spec_height(),
                    img.spec_width() == w,
                    img.spec_height() == h,
                    img.same_content(*old(img)),
                    self.n >= 1,
                    self.min_radius <= self.max_radius,
                    total == w * h,
                    covered@.len() == total,
                    grown@.len() == total,
                    pixels@.len() >= 1,
                    xlo as int == if cx >= rad {
                        cx as int - rad as int
                    } else {
                        0
                    },
                    xhi as int == if cx as int + rad as int <= w as int - 1 {
                        cx as int + rad as int
                    } else {
                        w as int - 1
                    },
                    ylo as int == if cy >= rad {
                        cy as int - rad as int
                    } else {
                        0
                    },
                    yhi as int == if cy as int + rad as int <= h as int - 1 {
                        cy as int + rad as int
                    } else {
                        h as int - 1
                    },
                    xlo <= xhi < w,
                    ylo <= py,
                    yhi < h,
                    cidx < total,
                    covered@[cidx as int] == true,
                    g == self.seed_area(w as int, h as int),
                    t < self.n,
                    draws.len() == t + 1,
                    draws[t as int] == (cx as int, cy as int, rad as int),
                    blob_trace(
                        g,
                        self.min_radius as int,
                        self.max_radius as int,
                        gseed,
                        draws,
                        w as int,
                        h as int,
                    ),
                    forall|q: int|
                        0 <= q < pixels@.len() ==> (#[trigger] pixels@[q]).0 < w && pixels@[q].1
                            < h,
                    forall|q: int|
                        0 <= q < pixels@.len() ==> growth_candidate(
                            gseed,
                            draws,
                            draws.len() as int,
                            w as int,
                            h as int,
                            ((#[trigger] pixels@[q]).0) as int,
                            (pixels@[q].1) as int,
                        ),
                    forall|q: int|
                        0 <= q < total && #[trigger] covered@[q] ==> covered_by(
                            draws,
                            q % (w as int),
                            q / (w as int),
                        ),
                    forall|q: int|
                        0 <= q < total && covered_by_first(
                            draws,
                            t as int,
                            q % (w as int),
                            q / (w as int),
                        ) ==> #[trigger] covered@[q],
                    forall|q: int|
                        0 <= q < total && in_disk(
                            cx as int,
                            cy as int,
                            q % (w as int),
                            q / (w as int),
                            rad as int,
                        ) && q / (w as int) < py ==> #[trigger] covered@[q],
                decreases yhi + 1 - py,
            {
                let mut px: u64 = xlo;
                proof {
                    let wi = w as int;
                    assert forall|q: int| #![trigger covered@[q]]
                        0 <= q < total && in_disk(
                        cx as int,
                        cy as int,
                        q % wi,
                        q / wi,
                        rad as int,
                    ) implies xlo as int <= q % wi <= xhi as int by {
                        lemma_disk_in_box(cx as int, cy as int, q % wi, q / wi, rad as int);
                    }
                }
                while px <= xhi
                    invariant
                        old(img).wf(),
                        img.wf(),
                        w == old(img).spec_width(),
                        h == old(img).spec_height(),
                        img.spec_width() == w,
                        img.spec_height() == h,
                        img.same_content(*old(img)),
                        self.n >= 1,
                        self.min_radius <= self.max_radius,
                        total == w * h,
                        covered@.len() == total,
                        grown@.len() == total,
                        pixels@.len() >= 1,
                        xlo as int == if cx >= rad {
                            cx as int - rad as int
                        } else {
                            0
                        },
                        xhi as int == if cx as int + rad as int <= w as int - 1 {
                            cx as int + rad as int
                        } else {
                            w as int - 1
                        },
                        ylo as int == if cy >= rad {
                            cy as int - rad as int
                        } else {
                            0
                        },
                        yhi as int == if cy as int + rad as int <= h as int - 1 {
                            cy as int + rad as int
                        } else {
                            h as int - 1
                        },
                        xlo <= xhi < w,
                        xlo <= px,
                        yhi < h,
                        ylo <= py <= yhi,
                        cidx < total,
                        covered@[cidx as int] == true,
                        g == self.seed_area(w as int, h as int),
                        t < self.n,
                        draws.len() == t + 1,
                        draws[t as int] == (cx as int, cy as int, rad as int),
                        blob_trace(
                            g,
                            self.min_radius as int,
                            self.max_radius as int,
                            gseed,
                            draws,
                            w as int,
                            h as int,
                        ),
                        forall|q: int|
                            0 <= q < pixels@.len() ==> (#[trigger] pixels@[q]).0 < w
                                && pixels@[q].1 < h,
                        forall|q: int|
                            0 <= q < pixels@.len() ==> growth_candidate(
                                gseed,
                                draws,
                                draws.len() as int,
                                w as int,
                                h as int,
                                ((#[trigger] pixels@[q]).0) as int,
                                (pixels@[q].1) as int,
                            ),
                        forall|q: int|
                            0 <= q < total && #[trigger] covered@[q] ==> covered_by(
                                draws,
                                q % (w as int),
                                q / (w as int),
                            ),
                        forall|q: int|
                            0 <= q < total && covered_by_first(
                                draws,
                                t as int,
                                q % (w as int),
                                q / (w as int),
                            ) ==> #[trigger] covered@[q],
                        forall|q: int|
                            0 <= q < total && in_disk(
                                cx as int,
                                cy as int,
                                q % (w as int),
                                q / (w as int),
                                rad as int,
                            ) && (q / (w as int) < py || (q / (w as int) == py && q % (w as int)
                                < px)) ==> #[trigger] covered@[q],
                    decreases xhi + 1 - px,
                {
                    let dx: i128 = px as i128 - cx as i128;
                    let dy: i128 = py as i128 - cy as i128;
                    proof {
                        assert(0 <= dx * dx < 0x10000000000000000) by (nonlinear_arith)
                            requires
                                -0xffffffff <= dx <= 0xffffffff,
                        ;
                        assert(0 <= dy * dy < 0x10000000000000000) by (nonlinear_arith)
                            requires
                                -0xffffffff <= dy <= 0xffffffff,
                        ;
                        assert((rad as int + 1) * (rad as int + 1) <= 0x10000000000000000)
                            by (nonlinear_arith)
                            requires
                                0 <= rad as int <= 0xffffffff,
                        ;
                    }
                    let rr: i128 = (rad as i128 + 1) * (rad as i128 + 1);
                    let ghost cov0 = covered@;
                    if dx * dx + dy * dy < rr {
                        proof {
                            lemma_index_bound(w as int, h as int, px as int, py as int);
                        }
                        let q0: usize = (py as usize) * (w as usize) + (px as usize);
                        covered[q0] = true;
                        proof {
                            vstd::arithmetic::div_mod::lemma_fundamental_div_mod_converse(
                                q0 as int,
                                w as int,
                                py as int,
                                px as int,
                            );
                            assert(in_disk(
                                (draws[t as int]).0,
                                (draws[t as int]).1,
                                px as int,
                                py as int,
                                (draws[t as int]).2,
                            ));
                            assert(growth_candidate(
                                gseed,
                                draws,
                                draws.len() as int,
                                w as int,
                                h as int,
                                px as int,
                                py as int,
                            ));
                        }
                        if self.allow_duplicates {
                            pixels.push((px as u32, py as u32));
                        } else {
                            if !grown[q0] {
                                grown[q0] = true;
                                pixels.push((px as u32, py as u32));
                            }
                        }
                    }
                    proof {
                        let wi = w as int;
                        assert forall|q: int|
                            0 <= q < total && #[trigger] covered@[q] implies covered_by(
                            draws,
                            q % wi,
                            q / wi,
                        ) by {
                            if cov0[q] {
                            } else {
                                vstd::arithmetic::div_mod::lemma_fundamental_div_mod(q, wi);
                            }
                        }
                        assert forall|q: int|
                            0 <= q < total && covered_by_first(draws, t as int, q % wi, q / wi)
                                implies #[trigger] covered@[q] by {
                            assert(cov0[q]);
                        }
                        assert forall|q: int|
                            0 <= q < total && in_disk(cx as int, cy as int, q % wi, q / wi,
                            rad as int) && (q / wi < py || (q / wi == py && q % wi < px + 1))
                            implies #[trigger] covered@[q] by {
                            if q / wi == py && q % wi == px {
                                vstd::arithmetic::div_mod::lemma_fundamental_div_mod(q, wi);
                                assert(wi * (py as int) == (py as int) * wi) by (nonlinear_arith);
                            } else {
                                assert(cov0[q]);
                            }
                        }
                    }
                    px = px + 1;
                }
                proof {
                    let wi = w as int;
                    assert forall|q: int|
                        0 <= q < total && in_disk(cx as int, cy as int, q % wi, q / wi,
                        rad as int) && q / wi < py + 1 implies #[trigger] covered@[q] by {
                        if q / wi == py {
                            lemma_disk_in_box(cx as int, cy as int, q % wi, q / wi, rad as int);
                        }
                    }
                }
                py = py + 1;
            }
            proof {
                let wi = w as int;
                // the whole circle is scanned, so coverage and marks agree
                assert forall|q: int|
                    0 <= q < total && covered_by(draws, q % wi, q / wi)
                        implies #[trigger] covered@[q] by {
                    if !covered_by_first(draws, t as int, q % wi, q / wi) {
                        let u = choose|u: int|
                            0 <= u < draws.len() && in_disk(
                                draws[u].0,
                                draws[u].1,
                                q % wi,
                                q / wi,
                                draws[u].2,
                            );
                        assert(u == t);
                        vstd::arithmetic::div_mod::lemma_fundamental_div_mod(q, wi);
                        vstd::arithmetic::div_mod::lemma_div_pos_is_pos(q, wi);
                        assert(q / wi < h as int) by (nonlinear_arith)
                            requires
                                q == wi * (q / wi) + q % wi,
                                0 <= q % wi,
                                q < wi * (h as int),
                                wi >= 1,
                                0 <= q / wi,
                        ;
                        lemma_disk_in_box(cx as int, cy as int, q % wi, q / wi, rad as int);
                    }
                }
            }
            t = t + 1;
        }
        // Invert each covered pixel, exactly once per unique pixel.
        proof {
            let wi = w as int;
            assert forall|i: int, j: int|
                0 <= i < w && 0 <= j < h implies (covered@[j * wi + i]
                <==> #[trigger] covered_by(draws, i, j)) by {
                lemma_index_bound(wi, h as int, i, j);
                vstd::arithmetic::div_mod::lemma_fundamental_div_mod_converse(
                    j * wi + i,
                    wi,
                    j,
                    i,
                );
            }
        }
        let mut y: u32 = 0;
        while y < h
            invariant
                old(img).wf(),
                img.wf(),
                w == old(img).spec_width(),
                h == old(img).spec_height(),
                img.spec_width() == w,
                img.spec_height() == h,
                total == w * h,
                covered@.len() == total,
                y <= h,
                forall|i: int, j: int|
                    0 <= i < w && 0 <= j < h ==> img.pix(i, j) == (if covered@[j * w + i] && j
                        < y {
                        inverted(old(img).pix(i, j))
                    } else {
                        old(img).pix(i, j)
                    }),
                forall|i: int, j: int|
                    0 <= i < w && 0 <= j < h ==> (covered@[j * (w as int) + i]
                        <==> #[trigger] covered_by(draws, i, j)),
                self.n == 0 ==> forall|q: int| 0 <= q < total ==> covered@[q] == false,
                self.n >= 1 ==> exists|q: int| 0 <= q < total && #[trigger] covered@[q] == true,
            decreases h - y,
        {
            let mut x: u32 = 0;
            while x < w
                invariant
                    old(img).wf(),
                    img.wf(),
                    w == old(img).spec_width(),
                    h == old(img).spec_height(),
                    img.spec_width() == w,
                    img.spec_height() == h,
                    total == w * h,
                    covered@.len() == total,
                    y < h,
                    x <= w,
                    forall|i: int, j: int|
                        0 <= i < w && 0 <= j < h ==> img.pix(i, j) == (if covered@[j * w + i] && (
                        j < y || (j == y && i < x)) {
                            inverted(old(img).pix(i, j))
                        } else {
                            old(img).pix(i, j)
                        }),
                    forall|i: int, j: int|
                        0 <= i < w && 0 <= j < h ==> (covered@[j * (w as int) + i]
                            <==> #[trigger] covered_by(draws, i, j)),
                    self.n == 0 ==> forall|q: int| 0 <= q < total ==> covered@[q] == false,
                    self.n >= 1 ==> exists|q: int| 0 <= q < total && #[trigger] covered@[q]
                        == true,
                decreases w - x,
            {
                proof {
                    lemma_index_bound(w as int, h as int, x as int, y as int);
                }
                let q: usize = (y as usize) * (w as usize) + (x as usize);
                if covered[q] {
                    let mut p = img.get_pixel(x, y);
                    p.invert();
                    img.put_pixel(x, y, p);
                }
                x = x + 1;
            }
            y = y + 1;
        }
        proof {
            if self.n == 0 {
                assert forall|i: int, j: int|
                    0 <= i < w && 0 <= j < h implies img.pix(i, j) == old(img).pix(i, j) by {
                    lemma_index_bound(w as int, h as int, i, j);
                }
                crate::images::lemma_pixelwise_equal_is_identity(*old(img), *img);
            } else {
                let q = choose|q: int| 0 <= q < total && #[trigger] covered@[q] == true;
                let wi = w as int;
                vstd::arithmetic::div_mod::lemma_fundamental_div_mod(q, wi);
                vstd::arithmetic::div_mod::lemma_mod_bound(q, wi);
                vstd::arithmetic::div_mod::lemma_div_pos_is_pos(q, wi);
                let i0 = q % wi;
                let j0 = q / wi;
                assert(j0 < h) by (nonlinear_arith)
                    requires
                        q == wi * j0 + i0,
                        0 <= i0 < wi,
                        0 <= j0,
                        q < wi * (h as int),
                ;
                assert(j0 * wi + i0 == q) by (nonlinear_arith)
                    requires
                        q == wi * j0 + i0,
                ;
                assert(img.pix(i0, j0) == inverted(old(img).pix(i0, j0)));
                assert(img.pix(i0, j0) != old(img).pix(i0, j0));
            }
            // the recorded trace is the promised blob
            assert forall|i: int, j: int|
                0 <= i < w && 0 <= j < h implies img.pix(i, j) == (if covered_by(draws, i, j) {
                inverted(old(img).pix(i, j))
            } else {
                old(img).pix(i, j)
            }) by {
                lemma_index_bound(w as int, h as int, i, j);
            }
            assert(self.blob_applied(*old(img), *img, gseed, draws));
        }
        Ok(())
    }
}

impl Filter for Cow {
    fn apply(&self, img: &mut Image, rng: &mut RandomSource) -> (r: Result<
        (),
        CaptchaError,
    >)
        ensures
            r is Ok <==> self.valid_for(
                old(img).spec_width() as int,
                old(img).spec_height() as int,
            ),
            r is Err ==> r->Err_0 == CaptchaError::InvalidFilterParameter,
            r is Ok ==> exists|seed: (int, int), draws: Seq<(int, int, int)>|
                self.blob_applied(*old(img), *final(img), seed, draws),
            r is Ok ==> forall|i: int, j: int|
                0 <= i < old(img).spec_width() && 0 <= j < old(img).spec_height()
                    ==> (final(img).pix(i, j) == old(img).pix(i, j) || final(img).pix(i, j)
                    == inverted(old(img).pix(i, j))),
            r is Ok && self.n == 0 ==> final(img).same_content(*old(img)),
            r is Ok && self.n >= 1 ==> exists|i: int, j: int|
                0 <= i < old(img).spec_width() && 0 <= j < old(img).spec_height()
                    && #[trigger] final(img).pix(i, j) == inverted(old(img).pix(i, j))
                    && final(img).pix(i, j) != old(img).pix(i, j),
    {
        self.smudge(img, rng)
    }
}

} // verus!
