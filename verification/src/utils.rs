//! The run's random stream: a small seeded generator, declared to the
//! verifier as an opaque type and drawn from through trusted wrappers.
//!
//! Nothing is assumed about the values drawn beyond their range: every
//! function that consumes a draw is verified for every value in that range.

use vstd::prelude::*;

verus! {

#[verifier::external_type_specification]
#[verifier::external_body]
pub struct ExSmallRng(rand::rngs::SmallRng);

/// Relies on rand's `SeedableRng::seed_from_u64`: builds a generator from a
/// seed. Nothing is stated of the stream it yields.
#[verifier::external_body]
pub fn make_rng(seed: u64) -> rand::rngs::SmallRng {
    <rand::rngs::SmallRng as rand::SeedableRng>::seed_from_u64(seed)
}

/// Relies on rand's `Rng::gen_range`: on the non-empty range `0..n` it
/// returns a value of that range and does not panic.
#[verifier::external_body]
pub fn rand_below(rng: &mut rand::rngs::SmallRng, n: u64) -> (r: u64)
    requires
        n >= 1,
    ensures
        r < n,
{
    rand::Rng::gen_range(rng, 0..n)
}

/// Relies on rand's `Rng::gen_range` at 128 bits: on the non-empty range
/// `0..n` it returns a value of that range and does not panic.
#[verifier::external_body]
pub fn rand_below_u128(rng: &mut rand::rngs::SmallRng, n: u128) -> (r: u128)
    requires
        n >= 1,
    ensures
        r < n,
{
    rand::Rng::gen_range(rng, 0..n)
}

} // verus!
