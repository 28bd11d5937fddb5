//! Filters that disturb and transform a canvas in place.

use vstd::prelude::*;

use crate::error::CaptchaError;
use crate::images::Image;
use crate::rng::RandomSource;

mod cow;
mod dots;
mod grid;
mod noise;
mod wave;

pub use cow::{
    blob_trace, covered_by, covered_by_first, growth_candidate, lemma_covered_first_mono,
    lemma_covered_first_prefix, lemma_covered_push, Cow,
};
pub use dots::Dots;
pub use grid::Grid;
pub use noise::{Noise, NOISE_DENOM};
pub use wave::{wave_offset_at, Direction, Wave};

verus! {

/// A stateless, parameterized, in-place canvas transform.
///
/// A filter validates its parameters before touching the canvas: on `Err`
/// the canvas is unchanged, and in every case the canvas keeps its
/// dimensions. A filter that needs entropy draws from the supplied
/// source, never from global state.
pub trait Filter {
    fn apply(&self, img: &mut Image, rng: &mut RandomSource) -> (r: Result<(), CaptchaError>)
        requires
            old(img).wf(),
        ensures
            final(img).wf(),
            final(img).spec_width() == old(img).spec_width(),
            final(img).spec_height() == old(img).spec_height(),
            r is Err ==> final(img).same_content(*old(img)),
    ;
}

} // verus!
