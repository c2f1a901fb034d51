//! Energy bookkeeping. Energy is a signed whole number of millionths that
//! saturates at the ends of its machine range instead of wrapping.

use vstd::prelude::*;

verus! {

/// The energy closest to `value` that can be stored.
pub open spec fn saturated(value: int) -> i64 {
    if value < i64::MIN {
        i64::MIN
    } else if value > i64::MAX {
        i64::MAX
    } else {
        value as i64
    }
}

/// Stores a wide intermediate result as an energy.
pub fn saturate(value: i128) -> (energy: i64)
    ensures
        energy == saturated(value as int),
{
    if value < i64::MIN as i128 {
        i64::MIN
    } else if value > i64::MAX as i128 {
        i64::MAX
    } else {
        value as i64
    }
}

/// A product whose first factor may be negative is bounded in magnitude by
/// the product of the bounds.
pub proof fn lemma_product_magnitude(a: int, b: int, a_max: int, b_max: int)
    by (nonlinear_arith)
    requires
        -a_max <= a <= a_max,
        0 <= b <= b_max,
    ensures
        -(a_max * b_max) <= a * b <= a_max * b_max,
{
}

} // verus!
