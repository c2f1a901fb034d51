//! Exact fractions in the closed interval from zero to one.

use vstd::prelude::*;

verus! {

/// Fixed-point one: every fractional quantity of the simulation is a whole
/// number of millionths.
pub const UNIT: u32 = 1_000_000;

/// A fraction `num / den` between zero and one.
#[derive(Clone, Copy, Debug, PartialEq, Eq, Structural)]
pub struct Ratio {
    pub num: u32,
    pub den: u32,
}

impl Ratio {
    /// A ratio is well formed when it denotes a number in `[0, 1]`.
    pub open spec fn wf(self) -> bool {
        0 < self.den && self.num <= self.den
    }

    /// Runtime form of [`Ratio::wf`].
    pub fn is_valid(&self) -> (valid: bool)
        ensures
            valid == self.wf(),
    {
        0 < self.den && self.num <= self.den
    }

    /// True when the ratio denotes zero.
    pub open spec fn is_zero(self) -> bool {
        self.num == 0
    }

    /// True when the ratio denotes one.
    pub open spec fn is_one(self) -> bool {
        self.num == self.den
    }

    /// `self <= other` as rational numbers, by cross multiplication.
    pub open spec fn le_spec(self, other: Ratio) -> bool {
        self.num * other.den <= other.num * self.den
    }

    /// Compares two ratios exactly.
    pub fn le(self, other: Ratio) -> (holds: bool)
        ensures
            holds == self.le_spec(other),
    {
        proof {
            lemma_product_bounded(
                self.num as int,
                other.den as int,
                u32::MAX as int,
                u32::MAX as int,
            );
            lemma_product_bounded(
                other.num as int,
                self.den as int,
                u32::MAX as int,
                u32::MAX as int,
            );
        }
        (self.num as u64) * (other.den as u64) <= (other.num as u64) * (self.den as u64)
    }

    /// `floor(value * num / den)`.
    pub open spec fn scale_spec(self, value: int) -> int {
        (value * self.num) / (self.den as int)
    }

    /// The given part of `value`, rounded down.
    pub fn scale(self, value: u32) -> (part: u32)
        requires
            self.wf(),
        ensures
            part == self.scale_spec(value as int),
            part <= value,
    {
        proof {
            lemma_product_bounded(value as int, self.num as int, u32::MAX as int, u32::MAX as int);
            lemma_scale_bounded(value as int, self.num as int, self.den as int);
        }
        let wide: u64 = (value as u64) * (self.num as u64);
        let part: u64 = wide / (self.den as u64);
        part as u32
    }
}

/// A part of a non-negative value never exceeds the value.
pub proof fn lemma_scale_bounded(value: int, num: int, den: int)
    by (nonlinear_arith)
    requires
        0 <= value,
        0 <= num <= den,
        0 < den,
    ensures
        0 <= (value * num) / den <= value,
{
}

/// `base` multiplied by itself `exponent` times.
pub open spec fn power(base: int, exponent: nat) -> int
    decreases exponent,
{
    if exponent == 0 {
        1
    } else {
        base * power(base, (exponent - 1) as nat)
    }
}

/// Powers of a positive base are positive, and powers of a non-negative
/// base are non-negative.
pub proof fn lemma_power_sign(base: int, exponent: nat)
    ensures
        0 < base ==> 0 < power(base, exponent),
        0 <= base ==> 0 <= power(base, exponent),
    decreases exponent,
{
    if exponent > 0 {
        lemma_power_sign(base, (exponent - 1) as nat);
        let rest = power(base, (exponent - 1) as nat);
        assert(0 < base && 0 < rest ==> 0 < base * rest) by (nonlinear_arith);
        assert(0 <= base && 0 <= rest ==> 0 <= base * rest) by (nonlinear_arith);
    }
}

/// A product of bounded non-negative factors is bounded by the product of
/// the bounds.
pub proof fn lemma_product_bounded(a: int, b: int, a_max: int, b_max: int)
    by (nonlinear_arith)
    requires
        0 <= a <= a_max,
        0 <= b <= b_max,
    ensures
        0 <= a * b <= a_max * b_max,
{
}

} // verus!
