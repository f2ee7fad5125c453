//! The source of randomness for generation and puzzle building.
//!
//! Generation is randomized, but nothing about its correctness depends on
//! which numbers come out: every contract here states only what holds of
//! every outcome.  The source is seeded explicitly, so callers that fix the
//! seed get reproducible runs.

use vstd::prelude::*;
use crate::value::Value;
use rand::Rng;
use rand::SeedableRng;
use rand::seq::SliceRandom;

verus! {

#[verifier::external_type_specification]
#[verifier::external_body]
pub struct ExStdRng(rand::rngs::StdRng);

/// An explicit, seedable source of randomness.
pub struct RandomSource {
    rng: rand::rngs::StdRng,
}

impl RandomSource {
    /// Relies on rand's `SeedableRng::seed_from_u64`, which derives a full
    /// generator state from a 64-bit seed and never panics.
    #[verifier::external_body]
    pub fn from_seed(seed: u64) -> RandomSource {
        RandomSource { rng: rand::rngs::StdRng::seed_from_u64(seed) }
    }

    /// Relies on rand's `SliceRandom::shuffle`: an in-place Fisher-Yates
    /// pass that swaps elements, so the result holds exactly the elements
    /// it was handed, rearranged.
    #[verifier::external_body]
    pub fn shuffle_values(&mut self, v: &mut Vec<Value>)
        ensures
            final(v)@.to_multiset() == old(v)@.to_multiset(),
    {
        v.shuffle(&mut self.rng);
    }

    /// Relies on rand's `Rng::gen_range` on `0..n`: a draw from the range,
    /// which panics only when the range is empty.
    #[verifier::external_body]
    pub fn gen_index(&mut self, n: usize) -> (r: usize)
        requires
            0 < n,
        ensures
            r < n,
    {
        self.rng.gen_range(0..n)
    }
}

} // verus!
