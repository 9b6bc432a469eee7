//! The trusted boundary to the pseudo-random number generator. The generator
//! itself is a black box: nothing is assumed of its draws beyond the bounds
//! rand documents, so everything proved downstream holds whatever it returns.

use vstd::prelude::*;

use rand::Rng;
use rand::SeedableRng;

verus! {

/// rand's `SmallRng`, declared so that it can stand in verified signatures.
/// Its state is opaque to verification.
#[verifier::external_type_specification]
#[verifier::external_body]
pub struct ExSmallRng(rand::rngs::SmallRng);

/// Relies on rand's `SeedableRng::seed_from_u64` for `SmallRng`: builds a
/// generator from a 64-bit seed. rand documents the algorithm as
/// deterministic but not reproducible across platforms or versions, so
/// nothing is stated of the draws that follow.
#[verifier::external_body]
pub(crate) fn rng_from_seed(seed: u64) -> rand::rngs::SmallRng {
    rand::rngs::SmallRng::seed_from_u64(seed)
}

/// Relies on rand's `SeedableRng::from_entropy` for `SmallRng`: builds a
/// generator seeded from operating-system entropy. It returns normally unless
/// the operating system's entropy source itself fails.
#[verifier::external_body]
pub(crate) fn rng_from_entropy() -> rand::rngs::SmallRng {
    rand::rngs::SmallRng::from_entropy()
}

/// Relies on rand's `Rng::gen_range` on the inclusive range `1..=sides`: the
/// draw always lies inside the range, and the range is non-empty (so the call
/// does not panic) because `sides >= 1`.
#[verifier::external_body]
pub(crate) fn draw_uniform(rng: &mut rand::rngs::SmallRng, sides: u32) -> (r: u32)
    requires
        sides >= 1,
    ensures
        1 <= r <= sides,
{
    rng.gen_range(1..=sides)
}

} // verus!
