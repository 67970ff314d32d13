//! The random number generator of `bracket-lib`, and what this library relies on of it.
use vstd::prelude::*;
use bracket_lib::prelude::RandomNumberGenerator;

verus! {

#[verifier::external_type_specification]
#[verifier::external_body]
pub struct ExRandomNumberGenerator(RandomNumberGenerator);

/// Calls `RandomNumberGenerator::new`, which seeds a generator from the operating system's
/// entropy; nothing is promised of its state.
#[verifier::external_body]
pub(crate) fn new_rng() -> RandomNumberGenerator {
    RandomNumberGenerator::new()
}

/// Calls `RandomNumberGenerator::range` on `i32`, which is `rand`'s `gen_range(min..max)`: a
/// value at least `min` and below `max` (it panics on an empty range). Which value comes out
/// rests on the generator's state and is left unsaid.
#[verifier::external_body]
pub(crate) fn range_i32(rng: &mut RandomNumberGenerator, min: i32, max: i32) -> (r: i32)
    requires
        min < max,
    ensures
        min <= r < max,
{
    rng.range(min, max)
}

/// Calls `RandomNumberGenerator::range` on `i8`: a value at least `min` and below `max`, as
/// for `range_i32`.
#[verifier::external_body]
pub(crate) fn range_i8(rng: &mut RandomNumberGenerator, min: i8, max: i8) -> (r: i8)
    requires
        min < max,
    ensures
        min <= r < max,
{
    rng.range(min, max)
}

/// Calls `RandomNumberGenerator::range` on `usize`: a value at least `min` and below `max`, as
/// for `range_i32`.
#[verifier::external_body]
pub(crate) fn range_usize(rng: &mut RandomNumberGenerator, min: usize, max: usize) -> (r: usize)
    requires
        min < max,
    ensures
        min <= r < max,
{
    rng.range(min, max)
}

/// Calls `RandomNumberGenerator::roll_dice`, the sum of `n` draws of `range(1, die_type + 1)`:
/// a value from `n` to `n * die_type`. The bounds rule out an empty range and an overflowing
/// sum, on which it panics.
#[verifier::external_body]
pub(crate) fn roll_dice(rng: &mut RandomNumberGenerator, n: i32, die_type: i32) -> (r: i32)
    requires
        0 <= n,
        1 <= die_type < i32::MAX,
        n * die_type <= i32::MAX,
    ensures
        n <= r <= n * die_type,
{
    rng.roll_dice(n, die_type)
}

/// Calls `RandomNumberGenerator::random_slice_entry`: `None` on an empty slice, else a
/// reference to one of its entries (drawn with `roll_dice(1, len)`, which rolls up to
/// `len + 1` in an `i32`, so the length must be below `i32::MAX`).
#[verifier::external_body]
pub(crate) fn random_slice_entry<'a, T>(rng: &mut RandomNumberGenerator, slice: &'a [T]) -> (r: Option<
    &'a T,
>)
    requires
        slice@.len() < i32::MAX,
    ensures
        r is None <==> slice@.len() == 0,
        r matches Some(e) ==> exists|i: int| 0 <= i < slice@.len() && slice@[i] == *e,
{
    rng.random_slice_entry(slice)
}

} // verus!
