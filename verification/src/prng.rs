//! The pseudo-random number generator that the repair loop draws from:
//! the xorshift generator of the `rand` crate, seeded by the caller.

use vstd::prelude::*;
use rand::Rng;
use rand::SeedableRng;

verus! {

/// The xorshift generator of the `rand` crate. Nothing of its state is
/// visible to proofs.
#[verifier::external_type_specification]
#[verifier::external_body]
pub struct ExXorShiftRng(rand::XorShiftRng);

/// Whether a seed can seed the generator: not all of its words are zero.
pub open spec fn seed_ok(seed: Seq<u32>) -> bool {
    exists|i: int| 0 <= i < seed.len() && seed[i] != 0
}

/// Calls `XorShiftRng::from_seed`, which sets the four words of the
/// generator's state to the four words of the seed. The call panics on a
/// seed of four zeros, which the precondition leaves out. Nothing is
/// claimed of the generator that comes back.
#[verifier::external_body]
pub(crate) fn prng_from_seed(seed: [u32; 4]) -> rand::XorShiftRng
    requires
        seed_ok(seed@),
{
    rand::XorShiftRng::from_seed(seed)
}

/// Calls `Rng::gen_range` for `u32`, which draws numbers until one falls
/// into the largest range that `high - low` divides and returns `low`
/// plus the remainder of that number. The call panics unless
/// `low < high`, which the precondition demands. Of the result only its
/// range is claimed: which number it is depends on the generator's state.
#[verifier::external_body]
pub(crate) fn prng_gen_range(prng: &mut rand::XorShiftRng, low: u32, high: u32) -> (r: u32)
    requires
        low < high,
    ensures
        low <= r < high,
{
    prng.gen_range(low, high)
}

/// Calls `Rng::gen_range` for `usize`, which works as for `u32` but
/// draws numbers of the width of `usize`. The call panics unless
/// `low < high`, which the precondition demands. Of the result only its
/// range is claimed: which number it is depends on the generator's state.
#[verifier::external_body]
pub(crate) fn prng_gen_index(prng: &mut rand::XorShiftRng, low: usize, high: usize) -> (r: usize)
    requires
        low < high,
    ensures
        low <= r < high,
{
    prng.gen_range(low, high)
}

} // verus!
