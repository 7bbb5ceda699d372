//! The random capability the simulation draws from, and its production
//! implementation backed by the `fastrand` generator.

use vstd::prelude::*;

use crate::util::Direction;

verus! {

/// Declares fastrand::Rng so that a generator can be held in a field and
/// passed to the wrappers below; its inside stays opaque.
#[verifier::external_type_specification]
#[verifier::external_body]
pub struct ExFastrandRng(fastrand::Rng);

/// The abstract random capability: bounded integer draws, a boolean draw
/// with a given probability, and an in-place shuffle. The simulation depends
/// only on these operations; tests substitute a scripted implementation.
pub trait EngineRng: Sized {
    /// A generator in a state derived deterministically from `seed`.
    fn with_seed(seed: u64) -> Self;

    /// A draw from the non-empty range `[min, max)`.
    fn u8(&mut self, min: u8, max: u8) -> (r: u8)
        requires
            min < max,
        ensures
            min <= r < max,
    ;

    /// A draw from the non-empty range `[min, max)`.
    fn u32(&mut self, min: u32, max: u32) -> (r: u32)
        requires
            min < max,
        ensures
            min <= r < max,
    ;

    /// A draw from the non-empty range `[min, max)`.
    fn i32(&mut self, min: i32, max: i32) -> (r: i32)
        requires
            min < max,
        ensures
            min <= r < max,
    ;

    /// A boolean draw that is true with probability `num / den`.
    fn bool_with_chance(&mut self, num: u64, den: u64) -> (r: bool)
        requires
            den > 0,
        ensures
            num == 0 ==> !r,
            num >= den ==> r,
    ;

    /// Reorders `items` in place into a permutation of themselves.
    fn shuffle(&mut self, items: &mut Vec<Direction>)
        ensures
            final(items)@.to_multiset() == old(items)@.to_multiset(),
    ;
}

/// The production generator, wrapping a `fastrand::Rng`.
pub struct StdRng {
    generator: fastrand::Rng,
}

/// Relies on fastrand::Rng::new: a fresh generator seeded from entropy.
#[verifier::external_body]
fn fastrand_new() -> fastrand::Rng {
    fastrand::Rng::new()
}

/// Relies on fastrand::Rng::with_seed: a generator whose initial state is
/// the given seed.
#[verifier::external_body]
fn fastrand_with_seed(seed: u64) -> fastrand::Rng {
    fastrand::Rng::with_seed(seed)
}

/// Relies on fastrand::Rng::u8: a draw from the given non-empty range.
#[verifier::external_body]
fn fastrand_u8(generator: &mut fastrand::Rng, min: u8, max: u8) -> (r: u8)
    requires
        min < max,
    ensures
        min <= r < max,
{
    generator.u8(min..max)
}

/// Relies on fastrand::Rng::u32: a draw from the given non-empty range.
#[verifier::external_body]
fn fastrand_u32(generator: &mut fastrand::Rng, min: u32, max: u32) -> (r: u32)
    requires
        min < max,
    ensures
        min <= r < max,
{
    generator.u32(min..max)
}

/// Relies on fastrand::Rng::i32: a draw from the given non-empty range.
#[verifier::external_body]
fn fastrand_i32(generator: &mut fastrand::Rng, min: i32, max: i32) -> (r: i32)
    requires
        min < max,
    ensures
        min <= r < max,
{
    generator.i32(min..max)
}

/// Relies on fastrand::Rng::u64: a draw from the given non-empty range.
#[verifier::external_body]
fn fastrand_u64(generator: &mut fastrand::Rng, min: u64, max: u64) -> (r: u64)
    requires
        min < max,
    ensures
        min <= r < max,
{
    generator.u64(min..max)
}

/// Relies on fastrand::Rng::shuffle: it reorders the slice by swapping
/// elements in place, so the slice afterwards holds the same elements.
#[verifier::external_body]
fn fastrand_shuffle(generator: &mut fastrand::Rng, items: &mut Vec<Direction>)
    ensures
        final(items)@.to_multiset() == old(items)@.to_multiset(),
{
    generator.shuffle(items.as_mut_slice());
}

impl StdRng {
    /// A generator seeded from entropy.
    pub fn new() -> Self {
        StdRng { generator: fastrand_new() }
    }
}

impl EngineRng for StdRng {
    fn with_seed(seed: u64) -> Self {
        StdRng { generator: fastrand_with_seed(seed) }
    }

    fn u8(&mut self, min: u8, max: u8) -> (r: u8) {
        fastrand_u8(&mut self.generator, min, max)
    }

    fn u32(&mut self, min: u32, max: u32) -> (r: u32) {
        fastrand_u32(&mut self.generator, min, max)
    }

    fn i32(&mut self, min: i32, max: i32) -> (r: i32) {
        fastrand_i32(&mut self.generator, min, max)
    }

    fn bool_with_chance(&mut self, num: u64, den: u64) -> (r: bool) {
        let draw = fastrand_u64(&mut self.generator, 0, den);
        draw < num
    }

    fn shuffle(&mut self, items: &mut Vec<Direction>) {
        fastrand_shuffle(&mut self.generator, items)
    }
}

} // verus!
