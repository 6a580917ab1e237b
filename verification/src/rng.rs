//! The random source used by map generation and spawning, backed by rltk's
//! `RandomNumberGenerator`. Nothing is assumed of which value comes back,
//! only of its range, so everything proved downstream holds for every
//! outcome of the dice.

use vstd::prelude::*;

verus! {

#[verifier::external_type_specification]
#[verifier::external_body]
pub struct ExRandomNumberGenerator(rltk::RandomNumberGenerator);

/// A random source. Holds rltk's generator; the library reads it only
/// through the range-bounded methods below.
pub struct GameRng {
    inner: rltk::RandomNumberGenerator,
}

impl GameRng {
    /// Relies on rltk::RandomNumberGenerator::new: a generator seeded from
    /// system entropy. Nothing is known of the values it will produce.
    #[verifier::external_body]
    pub fn new() -> (r: GameRng) {
        GameRng { inner: rltk::RandomNumberGenerator::new() }
    }

    /// Relies on rltk::RandomNumberGenerator::seeded: a generator seeded from
    /// the given value. Nothing is claimed of the values it will produce.
    #[verifier::external_body]
    pub fn seeded(seed: u64) -> (r: GameRng) {
        GameRng { inner: rltk::RandomNumberGenerator::seeded(seed) }
    }

    /// Relies on rltk::RandomNumberGenerator::roll_dice: the sum of `n` rolls
    /// of a die with faces 1..=die_type, hence a value in [n, n * die_type].
    /// The bounds on the arguments keep the call itself free of overflow and
    /// of empty ranges, on which it would panic.
    #[verifier::external_body]
    pub fn roll_dice(&mut self, n: i32, die_type: i32) -> (r: i32)
        requires
            1 <= n,
            1 <= die_type,
            die_type < i32::MAX,
            n * die_type <= i32::MAX,
        ensures
            n <= r <= n * die_type,
    {
        self.inner.roll_dice(n, die_type)
    }

    /// Relies on rltk::RandomNumberGenerator::range: a value in [min, max),
    /// inclusive of min, exclusive of max. Panics on an empty range, which
    /// the precondition rules out.
    #[verifier::external_body]
    pub fn range(&mut self, min: i32, max: i32) -> (r: i32)
        requires
            min < max,
        ensures
            min <= r < max,
    {
        self.inner.range(min, max)
    }
}

} // verus!
