//! Trusted boundary to the outside random number generator. Nothing is
//! promised of the stream beyond each draw's range; every decision taken
//! on a draw is made by verified code that takes the draw as an argument.

use vstd::prelude::*;

verus! {

#[verifier::external_type_specification]
#[verifier::external_body]
pub struct ExRandomNumberGenerator(rltk::RandomNumberGenerator);

/// Relies on rltk::RandomNumberGenerator::new: a generator seeded from
/// entropy; nothing holds of its stream.
#[verifier::external_body]
pub(crate) fn rng_new() -> rltk::RandomNumberGenerator {
    rltk::RandomNumberGenerator::new()
}

/// Relies on rltk::RandomNumberGenerator::seeded: a generator seeded from
/// the argument; nothing holds of its stream.
#[verifier::external_body]
pub(crate) fn rng_seeded(seed: u64) -> rltk::RandomNumberGenerator {
    rltk::RandomNumberGenerator::seeded(seed)
}

/// Relies on rltk::RandomNumberGenerator::roll_dice with one die: one
/// roll of a die with `sides` faces lies in `1..=sides`. The underlying
/// range draw excludes an empty range, hence the bound on `sides`.
#[verifier::external_body]
pub(crate) fn rng_roll_dice(rng: &mut rltk::RandomNumberGenerator, sides: i32) -> (r: i32)
    requires
        1 <= sides < i32::MAX,
    ensures
        1 <= r <= sides,
{
    rng.roll_dice(1, sides)
}

/// Relies on rltk::RandomNumberGenerator::range: a draw in `min..max`,
/// inclusive of `min` and exclusive of `max`; the range must be non-empty.
#[verifier::external_body]
pub(crate) fn rng_range(rng: &mut rltk::RandomNumberGenerator, min: i32, max: i32) -> (r: i32)
    requires
        min < max,
    ensures
        min <= r < max,
{
    rng.range(min, max)
}

} // verus!
