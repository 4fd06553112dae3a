//! Random number generation for the simulation kernel.
//!
//! The engine threads one explicitly seeded PCG-64 generator through every
//! sampling operation, so that two runs with the same seed draw the same
//! numbers. All randomness enters the verified code through the handful of
//! wrappers below; their contracts state only what holds of every outcome.

use vstd::prelude::*;
use rand::RngExt;
use rand::SeedableRng;
use rand_pcg::Pcg64;
use crate::fixed::SCALE;

verus! {

#[verifier::external_type_specification]
#[verifier::external_body]
pub struct ExLcg128Xsl64(rand_pcg::Lcg128Xsl64);

/// Relies on rand_pcg's PCG-64 generator: seeding with the same 64-bit value
/// always yields the same generator state.
#[verifier::external_body]
pub fn rng_from_seed(seed: u64) -> Pcg64 {
    Pcg64::seed_from_u64(seed)
}

/// Relies on rand's operating-system entropy source to seed a PCG-64
/// generator unpredictably.
#[verifier::external_body]
pub fn rng_from_entropy() -> Pcg64 {
    Pcg64::from_rng(&mut rand::rng())
}

/// Relies on rand's `Rng::random_range`: a uniformly drawn index is always
/// strictly below the bound.
#[verifier::external_body]
pub fn rand_index(rng: &mut Pcg64, n: usize) -> (r: usize)
    requires
        n > 0,
    ensures
        r < n,
{
    rng.random_range(0..n)
}

/// Relies on rand's `Rng::random_range`: a uniformly drawn fixed-point
/// fraction always lies in the unit interval, excluding one.
#[verifier::external_body]
pub fn rand_unit(rng: &mut Pcg64) -> (r: i64)
    ensures
        0 <= r < SCALE,
{
    rng.random_range(0..SCALE)
}

/// Relies on rand's `Rng::random`: a random boolean is a fair coin.
#[verifier::external_body]
pub fn rand_coin(rng: &mut Pcg64) -> bool {
    rng.random()
}

} // verus!
