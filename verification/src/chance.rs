//! The random draws of the simulation. Each function here hands one draw of
//! an outside generator to verified code; its contract is believed, not
//! proved, and states only what holds of every outcome.

use vstd::prelude::*;
use crate::ratio::Ratio;

verus! {

/// Calls `rand::random::<u16>()`: a value drawn uniformly from the
/// thread-local generator. Nothing is promised of the value beyond its type.
#[verifier::external_body]
pub(crate) fn random_value() -> (value: u16) {
    rand::random()
}

/// Calls `rand::random_ratio(numerator, denominator)`, which returns `true`
/// with probability `numerator / denominator`. Its documentation guarantees
/// `true` when both are equal and `false` when the numerator is zero; it
/// panics on a zero denominator or a numerator above the denominator, which
/// the precondition excludes.
#[verifier::external_body]
pub(crate) fn random_ratio(numerator: u32, denominator: u32) -> (hit: bool)
    requires
        0 < denominator,
        numerator <= denominator,
    ensures
        numerator == denominator ==> hit,
        numerator == 0 ==> !hit,
{
    rand::random_ratio(numerator, denominator)
}

/// Calls `rand::random_range(low..high)`, which draws uniformly from the
/// half-open range and panics when the range is empty, which the
/// precondition excludes.
#[verifier::external_body]
pub(crate) fn random_range(low: i32, high: i32) -> (value: i32)
    requires
        low < high,
    ensures
        low <= value < high,
{
    rand::random_range(low..high)
}

/// Calls `macroquad::rand::gen_range(0, len)`. That function scales a 32-bit
/// draw `d` to `d / 2^32`, a number strictly below one, multiplies it by
/// `len` in double precision and truncates. The relative rounding error of
/// the product is far smaller than the gap of `2^-32` below one, so the
/// result is an index strictly below `len`.
#[verifier::external_body]
pub(crate) fn pick_index(len: usize) -> (index: usize)
    requires
        0 < len,
    ensures
        index < len,
{
    macroquad::rand::gen_range(0, len)
}

/// Decides one event of probability `rate`.
pub fn happens(rate: Ratio) -> (hit: bool)
    requires
        rate.wf(),
    ensures
        rate.is_one() ==> hit,
        rate.is_zero() ==> !hit,
{
    random_ratio(rate.num, rate.den)
}

} // verus!
