//! Rounding and saturation, shared by the stages of the pipeline.

use vstd::prelude::*;

verus! {

/// `numerator / denominator` rounded to the nearest integer, halves away
/// from zero. The denominator is positive.
pub open spec fn round_div(numerator: int, denominator: int) -> int
    recommends
        denominator > 0,
{
    if numerator >= 0 {
        (2 * numerator + denominator) / (2 * denominator)
    } else {
        -((-2 * numerator + denominator) / (2 * denominator))
    }
}

/// A total held in a `u64`: totals beyond its range stay at its maximum.
pub open spec fn saturated(total: int) -> int {
    if total > u64::MAX {
        u64::MAX as int
    } else {
        total
    }
}

/// The sum of two totals, held at the maximum where it does not fit.
pub fn add_saturating(total: u64, step: u64) -> (sum: u64)
    ensures
        sum == saturated(total + step),
{
    let wide: u128 = total as u128 + step as u128;
    if wide > u64::MAX as u128 {
        u64::MAX
    } else {
        wide as u64
    }
}

} // verus!
