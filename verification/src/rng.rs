//! Deterministic pseudo-random draws, seeded from the world seed and turn
//! number so a turn's outcomes are reproducible.

use vstd::prelude::*;

verus! {

#[verifier::external_type_specification]
#[verifier::external_body]
pub struct ExSmallRng(rand::rngs::SmallRng);

/// Relies on rand's SeedableRng::seed_from_u64 for SmallRng: constructs a
/// generator from the seed. Nothing is promised of the values it will
/// yield.
#[verifier::external_body]
pub fn rng_from_seed(seed: u64) -> rand::rngs::SmallRng {
    <rand::rngs::SmallRng as rand::SeedableRng>::seed_from_u64(seed)
}

/// Relies on rand's Rng::gen_range over `0..n`: the result is always below
/// `n`, and the call panics only on an empty range, which the precondition
/// rules out.
#[verifier::external_body]
pub fn rand_below(rng: &mut rand::rngs::SmallRng, n: usize) -> (r: usize)
    requires
        n > 0,
    ensures
        r < n,
{
    rand::Rng::gen_range(rng, 0..n)
}

/// Relies on rand's Rng::gen_range over the full byte range: any byte may
/// come back.
#[verifier::external_body]
pub fn rand_byte(rng: &mut rand::rngs::SmallRng) -> u8 {
    rand::Rng::gen_range(rng, 0..=255u8)
}

} // verus!
