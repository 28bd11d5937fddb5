use vstd::prelude::*;

use crate::error::CaptchaError;
use crate::filters::Filter;
use crate::images::Image;
use crate::pixel::{marker, Pixl};
use crate::rng::RandomSource;

verus! {

/// Draws a full black line on every row whose index is a multiple of
/// `y_gap` and on every column whose index is a multiple of `x_gap`.
pub struct Grid {
    pub x_gap: u32,
    pub y_gap: u32,
}

impl Grid {
    pub fn new(x_gap: u32, y_gap: u32) -> (g: Grid)
        ensures
            g == (Grid { x_gap, y_gap }),
    {
        Grid { x_gap, y_gap }
    }

    /// Whether this grid paints the pixel at `(x, y)` black.
    pub open spec fn on_line(self, x: int, y: int) -> bool {
        x % (self.x_gap as int) == 0 || y % (self.y_gap as int) == 0
    }

    /// Paints black exactly the pixels on a marked row or column and keeps
    /// every other pixel at its prior value. Gaps must be at least one:
    /// a zero gap is rejected before the canvas is touched.
    pub fn draw(&self, img: &mut Image) -> (r: Result<(), CaptchaError>)
        requires
            old(img).wf(),
        ensures
            final(img).wf(),
            final(img).spec_width() == old(img).spec_width(),
            final(img).spec_height() == old(img).spec_height(),
            r is Ok <==> self.x_gap >= 1 && self.y_gap >= 1,
            r is Err ==> final(img).same_content(*old(img)) && r->Err_0
                == CaptchaError::InvalidFilterParameter,
            r is Ok ==> forall|i: int, j: int|
                0 <= i < old(img).spec_width() && 0 <= j < old(img).spec_height()
                    ==> final(img).pix(i, j) == (if self.on_line(i, j) {
                    marker()
                } else {
                    old(img).pix(i, j)
                }),
    {
        if self.x_gap < 1 || self.y_gap < 1 {
            return Err(CaptchaError::InvalidFilterParameter);
        }
        let w = img.width();
        let h = img.height();
        let mut y: u32 = 0;
        while y < h
            invariant
                old(img).wf(),
                img.wf(),
                w == old(img).spec_width(),
                h == old(img).spec_height(),
                img.spec_width() == w,
                img.spec_height() == h,
                self.x_gap >= 1,
                self.y_gap >= 1,
                y <= h,
                forall|i: int, j: int|
                    0 <= i < w && 0 <= j < h ==> img.pix(i, j) == (if self.on_line(i, j) && j
                        < y {
                        marker()
                    } else {
                        old(img).pix(i, j)
                    }),
            decreases h - y,
        {
            let mut x: u32 = 0;
            while x < w
                invariant
                    old(img).wf(),
                    img.wf(),
                    w == old(img).spec_width(),
                    h == old(img).spec_height(),
                    img.spec_width() == w,
                    img.spec_height() == h,
                    self.x_gap >= 1,
                    self.y_gap >= 1,
                    y < h,
                    x <= w,
                    forall|i: int, j: int|
                        0 <= i < w && 0 <= j < h ==> img.pix(i, j) == (if self.on_line(i, j) && (j
                            < y || (j == y && i < x)) {
                            marker()
                        } else {
                            old(img).pix(i, j)
                        }),
                decreases w - x,
            {
                if x % self.x_gap == 0 || y % self.y_gap == 0 {
                    img.put_pixel(x, y, Pixl::black());
                }
                x = x + 1;
            }
            y = y + 1;
        }
        Ok(())
    }
}

impl Filter for Grid {
    fn apply(&self, img: &mut Image, _rng: &mut RandomSource) -> (r: Result<
        (),
        CaptchaError,
    >)
        ensures
            r is Ok <==> self.x_gap >= 1 && self.y_gap >= 1,
            r is Err ==> r->Err_0 == CaptchaError::InvalidFilterParameter,
            r is Ok ==> forall|i: int, j: int|
                0 <= i < old(img).spec_width() && 0 <= j < old(img).spec_height()
                    ==> final(img).pix(i, j) == (if self.on_line(i, j) {
                    marker()
                } else {
                    old(img).pix(i, j)
                }),
    {
        self.draw(img)
    }
}

} // verus!
