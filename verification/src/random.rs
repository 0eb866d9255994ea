//! Random draws, made by `rand`'s thread-local generator.
//!
//! No draw can be foretold, so the contracts here state only the range a draw
//! falls in. The functions that use the draws say what they return for every
//! value a draw can take.

use rand::rngs::ThreadRng;
use vstd::prelude::*;

verus! {

/// `rand`'s handle to the generator of the current thread. Its state is
/// hidden: nothing is claimed of it.
#[verifier::external_type_specification]
#[verifier::external_body]
pub struct ExThreadRng(rand::rngs::ThreadRng);

/// Calls `rand::thread_rng`: a handle to the generator of the current thread.
#[verifier::external_body]
pub(crate) fn thread_rng() -> ThreadRng {
    rand::thread_rng()
}

/// Calls `rand::RngCore::next_u64`: the next 64 random bits.
#[verifier::external_body]
pub(crate) fn next_u64(rng: &mut ThreadRng) -> u64 {
    rand::RngCore::next_u64(rng)
}

/// Calls `rand::Rng::gen_range` with the bounds `0` and `bound`. It panics on
/// an empty range, and returns a number of the range, which excludes `bound`.
#[verifier::external_body]
pub(crate) fn gen_below(rng: &mut ThreadRng, bound: usize) -> (drawn: usize)
    requires
        bound > 0,
    ensures
        drawn < bound,
{
    rand::Rng::gen_range(rng, 0, bound)
}

/// The number of values a unit draw can take: 2^53. A unit draw `d` stands
/// for the fraction `d / UNIT` of the interval from 0 to 1, 1 excluded.
pub const UNIT: u64 = 0x20_0000_0000_0000;

/// The unit draw that 64 random bits make: their upper 53 bits, which is
/// the number that they write, divided by 2^11.
pub fn unit_of(bits: u64) -> (unit: u64)
    ensures
        unit == bits / 0x800,
        unit < UNIT,
{
    assert(bits >> 11 == bits / 0x800 && bits >> 11 < 0x20_0000_0000_0000u64) by (bit_vector);
    bits >> 11
}

/// A uniform draw from the unit interval, counted in steps of `1 / UNIT`: the
/// unit draw that the next 64 random bits make.
pub fn unit_draw(rng: &mut ThreadRng) -> (drawn: u64)
    ensures
        drawn < UNIT,
{
    unit_of(next_u64(rng))
}

} // verus!
