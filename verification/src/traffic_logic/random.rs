//! The pseudo-random source of the simulation.
//!
//! The generator comes from the `rand` crate. Verus does not look inside it:
//! the items of this file state what is taken on trust about it.

use vstd::prelude::*;
use rand::rngs::StdRng;
use rand::Rng;
use rand::SeedableRng;

verus! {

/// `rand::rngs::StdRng`, carried through verified code as an opaque value.
#[verifier::external_type_specification]
#[verifier::external_body]
pub struct ExStdRng(rand::rngs::StdRng);

/// The generator that `StdRng::seed_from_u64` makes of a seed. The seed is
/// all that goes into it: the function spreads the seed over the
/// generator's key by fixed arithmetic, reading no clock, no environment
/// and no other source of chance.
pub uninterp spec fn seeded_generator(seed: u64) -> StdRng;

/// Calls `StdRng::seed_from_u64`. The claim is that the generator that
/// comes back is the one that belongs to `seed`, so that equal seeds give
/// equal generators. Nothing is claimed about what a generator draws.
#[verifier::external_body]
pub(crate) fn seeded_rng(seed: u64) -> (rng: StdRng)
    ensures
        rng == seeded_generator(seed),
{
    StdRng::seed_from_u64(seed)
}

/// Calls `Rng::gen_range` on the inclusive range `0..=max`. The claim is only
/// that the number drawn lies in that range; which number it is depends on
/// the generator's state, of which nothing is said.
#[verifier::external_body]
pub(crate) fn draw_up_to(rng: &mut StdRng, max: u8) -> (n: u8)
    ensures
        n <= max,
{
    rng.gen_range(0..=max)
}

} // verus!
