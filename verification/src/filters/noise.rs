use vstd::prelude::*;

use crate::error::CaptchaError;
use crate::filters::Filter;
use crate::images::Image;
use crate::pixel::{marker, Pixl};
use crate::rng::RandomSource;

verus! {

/// The denominator of the noise probability: a filter with `prob == p`
/// blackens each pixel with probability `p / NOISE_DENOM`.
pub const NOISE_DENOM: u32 = 1000000;

/// Pixel noise: every pixel is independently turned black with
/// probability `prob / NOISE_DENOM`. A probability of zero leaves the
/// canvas untouched; `NOISE_DENOM` or more blackens every pixel.
pub struct Noise {
    pub prob: u32,
}

impl Noise {
    pub fn new(prob: u32) -> (n: Noise)
        ensures
            n == (Noise { prob }),
    {
        Noise { prob }
    }

    /// Turns each pixel black with probability `prob / NOISE_DENOM`,
    /// drawing once per pixel: every pixel either keeps its value or
    /// becomes the marker color. Probability zero changes nothing, and a
    /// probability of one or more blackens the whole canvas.
    pub fn sprinkle(&self, img: &mut Image, rng: &mut RandomSource)
        requires
            old(img).wf(),
        ensures
            final(img).wf(),
            final(img).spec_width() == old(img).spec_width(),
            final(img).spec_height() == old(img).spec_height(),
            forall|i: int, j: int|
                0 <= i < old(img).spec_width() && 0 <= j < old(img).spec_height()
                    ==> (final(img).pix(i, j) == old(img).pix(i, j)
                    || final(img).pix(i, j) == marker()),
            self.prob == 0 ==> final(img).same_content(*old(img)),
            self.prob >= NOISE_DENOM ==> forall|i: int, j: int|
                0 <= i < old(img).spec_width() && 0 <= j < old(img).spec_height()
                    ==> final(img).pix(i, j) == marker(),
    {
        let w = img.width();
        let h = img.height();
        let mut y: u32 = 0;
        while y < h
            invariant
                old(img).wf(),
                img.wf(),
                w == old(img).spec_width(),
                h == old(img).spec_height(),
                img.spec_width() == w,
                img.spec_height() == h,
                y <= h,
                forall|i: int, j: int|
                    0 <= i < w && 0 <= j < h ==> (img.pix(i, j) == old(img).pix(i, j) || img.pix(
                        i,
                        j,
                    ) == marker()),
                self.prob == 0 ==> forall|i: int, j: int|
                    0 <= i < w && 0 <= j < h ==> img.pix(i, j) == old(img).pix(i, j),
                self.prob >= NOISE_DENOM ==> forall|i: int, j: int|
                    0 <= i < w && 0 <= j < h && j < y ==> img.pix(i, j) == marker(),
            decreases h - y,
        {
            let mut x: u32 = 0;
            while x < w
                invariant
                    old(img).wf(),
                    img.wf(),
                    w == old(img).spec_width(),
                    h == old(img).spec_height(),
                    img.spec_width() == w,
                    img.spec_height() == h,
                    y < h,
                    x <= w,
                    forall|i: int, j: int|
                        0 <= i < w && 0 <= j < h ==> (img.pix(i, j) == old(img).pix(i, j)
                            || img.pix(i, j) == marker()),
                    self.prob == 0 ==> forall|i: int, j: int|
                        0 <= i < w && 0 <= j < h ==> img.pix(i, j) == old(img).pix(i, j),
                    self.prob >= NOISE_DENOM ==> forall|i: int, j: int|
                        0 <= i < w && 0 <= j < h && (j < y || (j == y && i < x)) ==> img.pix(
                            i,
                            j,
                        ) == marker(),
                decreases w - x,
            {
                let draw = rng.below(NOISE_DENOM);
                if draw < self.prob {
                    img.put_pixel(x, y, Pixl::black());
                }
                x = x + 1;
            }
            y = y + 1;
        }
        proof {
            if self.prob == 0 {
                crate::images::lemma_pixelwise_equal_is_identity(*old(img), *img);
            }
        }
    }
}

impl Filter for Noise {
    fn apply(&self, img: &mut Image, rng: &mut RandomSource) -> (r: Result<
        (),
        CaptchaError,
    >)
        ensures
            r is Ok,
            forall|i: int, j: int|
                0 <= i < old(img).spec_width() && 0 <= j < old(img).spec_height()
                    ==> (final(img).pix(i, j) == old(img).pix(i, j)
                    || final(img).pix(i, j) == marker()),
            self.prob == 0 ==> final(img).same_content(*old(img)),
            self.prob >= NOISE_DENOM ==> forall|i: int, j: int|
                0 <= i < old(img).spec_width() && 0 <= j < old(img).spec_height()
                    ==> final(img).pix(i, j) == marker(),
    {
        self.sprinkle(img, rng);
        Ok(())
    }
}

} // verus!
