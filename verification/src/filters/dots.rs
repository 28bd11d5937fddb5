use vstd::prelude::*;

use super::cow::{covered_by, lemma_covered_push};
use crate::error::CaptchaError;
use crate::filters::Filter;
use crate::images::Image;
use crate::pixel::{marker, Pixl};
use crate::rng::RandomSource;

verus! {

/// Draws `n` filled black circles at uniformly random centers, each with
/// a radius drawn independently from `[min_radius, max_radius]`, both
/// bounds inclusive.
pub struct Dots {
    pub n: u32,
    pub min_radius: u32,
    pub max_radius: u32,
}

impl Dots {
    pub fn new(n: u32) -> (d: Dots)
        ensures
            d == (Dots { n, min_radius: 5, max_radius: 10 }),
    {
        Dots { n, min_radius: 5, max_radius: 10 }
    }

    pub fn min_radius(self, r: u32) -> (d: Dots)
        ensures
            d == (Dots { min_radius: r, ..self }),
    {
        Dots { min_radius: r, ..self }
    }

    pub fn max_radius(self, r: u32) -> (d: Dots)
        ensures
            d == (Dots { max_radius: r, ..self }),
    {
        Dots { max_radius: r, ..self }
    }

    /// `out` is `base` with exactly `n` recorded circles painted in the
    /// marker color: each center lies on the canvas, each radius is
    /// within the configured range, and a pixel is the marker afterwards
    /// exactly when some circle covers it, else it keeps its prior
    /// value.
    pub open spec fn dots_applied(
        self,
        base: Image,
        out: Image,
        draws: Seq<(int, int, int)>,
    ) -> bool {
        let w = base.spec_width() as int;
        let h = base.spec_height() as int;
        &&& draws.len() == self.n
        &&& forall|k: int|
            0 <= k < draws.len() ==> {
                let d = #[trigger] draws[k];
                &&& 0 <= d.0 < w
                &&& 0 <= d.1 < h
                &&& self.min_radius <= d.2 <= self.max_radius
            }
        &&& forall|i: int, j: int|
            0 <= i < w && 0 <= j < h ==> out.pix(i, j) == (if covered_by(draws, i, j) {
                marker()
            } else {
                base.pix(i, j)
            })
    }

    /// Draws the circles: the result is exactly `n` recorded circles
    /// painted on the canvas, so every pixel either keeps its value or
    /// is the marker color, and any circle at all leaves at least one
    /// marker pixel. An inverted radius range is rejected before the
    /// canvas is touched.
    pub fn draw(&self, img: &mut Image, rng: &mut RandomSource) -> (r: Result<(), CaptchaError>)
        requires
            old(img).wf(),
        ensures
            final(img).wf(),
            final(img).spec_width() == old(img).spec_width(),
            final(img).spec_height() == old(img).spec_height(),
            r is Ok <==> self.min_radius <= self.max_radius,
            r is Err ==> final(img).same_content(*old(img)) && r->Err_0
                == CaptchaError::InvalidFilterParameter,
            r is Ok ==> exists|draws: Seq<(int, int, int)>|
                self.dots_applied(*old(img), *final(img), draws),
            forall|i: int, j: int|
                0 <= i < old(img).spec_width() && 0 <= j < old(img).spec_height()
                    ==> (final(img).pix(i, j) == old(img).pix(i, j)
                    || final(img).pix(i, j) == marker()),
            self.n == 0 ==> final(img).same_content(*old(img)),
            r is Ok && self.n >= 1 ==> exists|i: int, j: int|
                0 <= i < old(img).spec_width() && 0 <= j < old(img).spec_height()
                    && #[trigger] final(img).pix(i, j) == marker(),
    {
        if self.min_radius > self.max_radius {
            return Err(CaptchaError::InvalidFilterParameter);
        }
        let w = img.width();
        let h = img.height();
        let ghost mut draws: Seq<(int, int, int)> = Seq::empty();
        let mut t: u32 = 0;
        while t < self.n
            invariant
                old(img).wf(),
                img.wf(),
                w == old(img).spec_width(),
                h == old(img).spec_height(),
                img.spec_width() == w,
                img.spec_height() == h,
                self.min_radius <= self.max_radius,
                t <= self.n,
                draws.len() == t,
                forall|k: int|
                    0 <= k < draws.len() ==> {
                        let d = #[trigger] draws[k];
                        &&& 0 <= d.0 < w
                        &&& 0 <= d.1 < h
                        &&& self.min_radius <= d.2 <= self.max_radius
                    },
                forall|i: int, j: int|
                    0 <= i < w && 0 <= j < h ==> img.pix(i, j) == (if covered_by(draws, i, j) {
                        marker()
                    } else {
                        old(img).pix(i, j)
                    }),
                forall|i: int, j: int|
                    0 <= i < w && 0 <= j < h ==> (img.pix(i, j) == old(img).pix(i, j) || img.pix(
                        i,
                        j,
                    ) == marker()),
                t == 0 ==> img.same_content(*old(img)),
                t >= 1 ==> exists|i: int, j: int|
                    0 <= i < w && 0 <= j < h && #[trigger] img.pix(i, j) == marker(),
            decreases self.n - t,
        {
            let cx = rng.below(w);
            let cy = rng.below(h);
            let rad: u32 = if self.min_radius == 0 && self.max_radius == u32::MAX {
                rng.below(u32::MAX)
            } else {
                rng.in_range(self.min_radius, self.max_radius)
            };
            let ghost draws0 = draws;
            img.fill_circle(cx, cy, rad, Pixl::black());
            proof {
                draws = draws.push((cx as int, cy as int, rad as int));
                assert forall|i: int, j: int|
                    0 <= i < w && 0 <= j < h implies img.pix(i, j) == (if covered_by(
                    draws,
                    i,
                    j,
                ) {
                    marker()
                } else {
                    old(img).pix(i, j)
                }) by {
                    lemma_covered_push(draws0, (cx as int, cy as int, rad as int), i, j);
                }
                // the circle's center lies on the canvas and is painted
                assert((rad as int + 1) * (rad as int + 1) >= 1) by (nonlinear_arith)
                    requires
                        rad as int >= 0,
                ;
                assert(crate::images::in_disk(cx as int, cy as int, cx as int, cy as int,
                    rad as int));
                assert(img.pix(cx as int, cy as int) == marker());
            }
            t = t + 1;
        }
        proof {
            assert(self.dots_applied(*old(img), *img, draws));
        }
        Ok(())
    }
}

impl Filter for Dots {
    fn apply(&self, img: &mut Image, rng: &mut RandomSource) -> (r: Result<
        (),
        CaptchaError,
    >)
        ensures
            r is Ok <==> self.min_radius <= self.max_radius,
            r is Err ==> r->Err_0 == CaptchaError::InvalidFilterParameter,
            r is Ok ==> exists|draws: Seq<(int, int, int)>|
                self.dots_applied(*old(img), *final(img), draws),
            forall|i: int, j: int|
                0 <= i < old(img).spec_width() && 0 <= j < old(img).spec_height()
                    ==> (final(img).pix(i, j) == old(img).pix(i, j)
                    || final(img).pix(i, j) == marker()),
            self.n == 0 ==> final(img).same_content(*old(img)),
            r is Ok && self.n >= 1 ==> exists|i: int, j: int|
                0 <= i < old(img).spec_width() && 0 <= j < old(img).spec_height()
                    && #[trigger] final(img).pix(i, j) == marker(),
    {
        self.draw(img, rng)
    }
}

} // verus!
