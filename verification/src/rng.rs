//! The renderer's source of randomness: a seedable generator passed
//! explicitly into every function that samples, so a render is a pure
//! function of the scene and the seed.

use vstd::prelude::*;

verus! {

#[verifier::external_type_specification]
#[verifier::external_body]
pub struct ExStdRng(rand::rngs::StdRng);

/// A deterministic, seedable source of fixed-point samples.
pub struct Sampler {
    rng: rand::rngs::StdRng,
}

impl Sampler {
    /// Relies on `rand::rngs::StdRng` with `SeedableRng::seed_from_u64`: the
    /// generator's stream is a pure function of the seed.
    #[verifier::external_body]
    pub fn from_seed(seed: u64) -> (r: Sampler) {
        Sampler { rng: rand::SeedableRng::seed_from_u64(seed) }
    }

    /// Relies on `rand::Rng::gen_range`, which returns a sample uniform in
    /// `min..max` and panics only when that range is empty. Nothing beyond
    /// the range can be promised of a random value.
    #[verifier::external_body]
    pub(crate) fn sample_range(&mut self, min: i64, max: i64) -> (r: i64)
        requires
            min < max,
        ensures
            min <= r < max,
    {
        rand::Rng::gen_range(&mut self.rng, min..max)
    }
}

} // verus!
