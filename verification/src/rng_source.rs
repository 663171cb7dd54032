//! The random source: a seedable generator, injected at construction so
//! that a run's proposal sequence is reproducible.
//!
//! Nothing is assumed about the values drawn beyond their range; every
//! contract downstream holds for every outcome.
use vstd::prelude::*;
use rand::Rng;
use rand::SeedableRng;
use rand::rngs::StdRng;

verus! {

/// Draws for the unit interval range over `[0, 2^53)`.
pub const UNIT_DRAW_BOUND: u64 = 0x20_0000_0000_0000;

#[verifier::external_type_specification]
#[verifier::external_body]
pub struct ExStdRng(StdRng);

/// Relies on rand's `SeedableRng::seed_from_u64`: builds a generator
/// deterministically from the seed. Nothing is assumed of its output.
#[verifier::external_body]
pub(crate) fn rng_from_seed(seed: u64) -> StdRng {
    StdRng::seed_from_u64(seed)
}

/// Relies on rand's `Rng::random_range` over `0..bound`: it returns a
/// value of that range, and panics only on an empty one, which the
/// precondition rules out.
#[verifier::external_body]
pub(crate) fn rng_below(rng: &mut StdRng, bound: usize) -> (r: usize)
    requires
        bound >= 1,
    ensures
        r < bound,
{
    rng.random_range(0..bound)
}

/// Relies on rand's `Rng::random_range` over `0..UNIT_DRAW_BOUND`, a
/// nonempty range: the draw lies below `UNIT_DRAW_BOUND`.
#[verifier::external_body]
pub(crate) fn rng_unit(rng: &mut StdRng) -> (r: u64)
    ensures
        r < UNIT_DRAW_BOUND,
{
    rng.random_range(0..UNIT_DRAW_BOUND)
}

} // verus!
