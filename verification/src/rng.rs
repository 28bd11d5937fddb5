use vstd::prelude::*;

use rand::RngExt;
use rand::SeedableRng;

verus! {

#[verifier::external_type_specification]
#[verifier::external_body]
pub struct ExStdRng(rand::rngs::StdRng);

/// A handle on a pseudo-random generator. Every operation of this crate
/// that needs entropy draws from one that the caller supplies, so that a
/// seeded run is reproducible and no global state is shared.
pub struct RandomSource {
    inner: rand::rngs::StdRng,
}

impl RandomSource {
    /// Relies on rand's `StdRng::seed_from_u64`: builds a generator whose
    /// stream is a fixed function of the seed.
    #[verifier::external_body]
    pub fn from_seed(seed: u64) -> (r: RandomSource) {
        RandomSource { inner: rand::rngs::StdRng::seed_from_u64(seed) }
    }

    /// Relies on rand's `SeedableRng::from_rng` and `rand::rng()`: builds a
    /// generator seeded from the thread-local one.
    #[verifier::external_body]
    pub fn fresh() -> (r: RandomSource) {
        RandomSource { inner: rand::rngs::StdRng::from_rng(&mut rand::rng()) }
    }

    /// Relies on rand's `Rng::random_range` over `0..n`: the draw is below
    /// `n`, and the call panics only on an empty range, which the
    /// precondition excludes.
    #[verifier::external_body]
    pub(crate) fn below(&mut self, n: u32) -> (r: u32)
        requires
            n >= 1,
        ensures
            r < n,
    {
        self.inner.random_range(0..n)
    }

    /// A draw from the inclusive range `[lo, hi]`.
    pub(crate) fn in_range(&mut self, lo: u32, hi: u32) -> (r: u32)
        requires
            lo <= hi,
            hi - lo < u32::MAX,
        ensures
            lo <= r <= hi,
    {
        lo + self.below(hi - lo + 1)
    }
}

} // verus!
