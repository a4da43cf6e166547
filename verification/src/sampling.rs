//! Random draws. Every random decision of the tracer starts from one of the
//! two draws below, both taken from the thread-local generator.

use crate::fixed::{Fixed, ONE_RAW};
use rand::Rng;
use vstd::prelude::*;

verus! {

/// Calls `rand::Rng::random::<u32>` on `rand::rng()` and reads the 32 bits as
/// the fraction of a fixed-point number. The contract claims only the range
/// that follows from the width of the draw: `0 <= r < 1`.
#[verifier::external_body]
pub(crate) fn random_fraction() -> (r: Fixed)
    ensures
        0 <= r@ < ONE_RAW,
{
    Fixed { raw: rand::rng().random::<u32>() as i64 }
}

/// Calls `rand::Rng::random_range(0..=upper)` on `rand::rng()`. The range is
/// never empty, so the call does not panic, and the contract claims only
/// that the draw lies in the range.
#[verifier::external_body]
pub(crate) fn random_index(upper: usize) -> (r: usize)
    ensures
        r <= upper,
{
    rand::rng().random_range(0..=upper)
}

/// A uniform draw from `[0, 1)`.
pub fn random_unit() -> (r: Fixed)
    ensures
        0 <= r@ < ONE_RAW,
{
    random_fraction()
}

/// The point of `[min, max)` that the fraction `u` of the way picks:
/// `min + (max - min) * u`.
pub open spec fn spec_lerp(min: Fixed, max: Fixed, u: Fixed) -> Fixed {
    min.add(max.sub(min).mul(u))
}

#[verifier::when_used_as_spec(spec_lerp)]
pub fn lerp(min: Fixed, max: Fixed, u: Fixed) -> (r: Fixed)
    ensures
        r == spec_lerp(min, max, u),
{
    min.add(max.sub(min).mul(u))
}

/// A uniform draw from `[min, max)`: `lerp(min, max, u)` for some fraction
/// `u` of `[0, 1)`.
pub fn random_between(min: Fixed, max: Fixed) -> (r: Fixed)
    ensures
        exists|u: Fixed| 0 <= u@ < ONE_RAW && r == spec_lerp(min, max, u),
{
    let u = random_fraction();
    lerp(min, max, u)
}

} // verus!
