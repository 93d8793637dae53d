//! Single-precision numbers by their bit patterns.
//!
//! A [`Single`] holds the 32 bits of an IEEE 754 single-precision number. What
//! can be said of such a number without rounding is said here: its sign, whether
//! it is a number at all, and how it compares with another. Sums and products
//! are computed elsewhere and handed in.

use vstd::prelude::*;
use vstd::std_specs::cmp::PartialEqSpec;

use crate::logical_meter::exact::{law_order_is_that_of_the_numbers, number};

verus! {

/// The bits of positive infinity: the largest magnitude of a number.
pub const INFINITY_BITS: u32 = 0x7f80_0000;

/// The bits of 0.0.
pub const ZERO_BITS: u32 = 0x0000_0000;

/// The bits of 1.0.
pub const ONE_BITS: u32 = 0x3f80_0000;

/// The bit that holds the sign.
pub const SIGN_BIT: u32 = 0x8000_0000;

/// An IEEE 754 single-precision number, by its bits.
///
/// Both zeros are equal, and what is not a number is equal to nothing.
#[derive(Clone, Copy, Debug)]
pub struct Single {
    /// The sign bit, the eight bits of the exponent and the 23 bits of the
    /// fraction.
    pub bits: u32,
}

impl PartialEq for Single {
    fn eq(&self, other: &Self) -> (r: bool) {
        self.le(*other) && other.le(*self)
    }
}

impl vstd::std_specs::cmp::PartialEqSpecImpl for Single {
    open spec fn obeys_eq_spec() -> bool {
        true
    }

    open spec fn eq_spec(&self, other: &Self) -> bool {
        self.is_equal(*other)
    }
}

impl Single {
    /// The bits without the sign.
    pub open spec fn spec_magnitude(self) -> int {
        if self.bits >= SIGN_BIT {
            self.bits - SIGN_BIT
        } else {
            self.bits as int
        }
    }

    /// Whether this is not a number.
    pub open spec fn spec_is_nan(self) -> bool {
        self.spec_magnitude() > INFINITY_BITS
    }

    /// A value ordered as the numbers are. Both zeros have the rank 0.
    pub open spec fn rank(self) -> int {
        if self.bits >= SIGN_BIT {
            -self.spec_magnitude()
        } else {
            self.spec_magnitude()
        }
    }

    /// Whether `self` is less than `other`: false where either is not a
    /// number.
    pub open spec fn spec_lt(self, other: Self) -> bool {
        !self.spec_is_nan() && !other.spec_is_nan() && self.rank() < other.rank()
    }

    /// Whether the numbers are equal: false where either is not a number.
    pub open spec fn is_equal(self, other: Self) -> bool {
        !self.spec_is_nan() && !other.spec_is_nan() && self.rank() == other.rank()
    }

    /// Whether `self` is at most `other`: false where either is not a number.
    pub open spec fn spec_le(self, other: Self) -> bool {
        !self.spec_is_nan() && !other.spec_is_nan() && self.rank() <= other.rank()
    }

    /// The number with the given bits.
    pub fn from_bits(bits: u32) -> (r: Self)
        ensures
            r.bits == bits,
    {
        Single { bits }
    }

    /// The bits of the number.
    pub fn to_bits(self) -> (r: u32)
        ensures
            r == self.bits,
    {
        self.bits
    }

    fn magnitude(self) -> (r: u32)
        ensures
            r == self.spec_magnitude(),
    {
        if self.bits >= SIGN_BIT {
            self.bits - SIGN_BIT
        } else {
            self.bits
        }
    }

    /// Whether this is not a number.
    pub fn is_nan(self) -> (r: bool)
        ensures
            r == self.spec_is_nan(),
    {
        self.magnitude() > INFINITY_BITS
    }

    /// Whether this is positive or negative infinity.
    pub fn is_infinite(self) -> (r: bool)
        ensures
            r == (self.spec_magnitude() == INFINITY_BITS),
    {
        self.magnitude() == INFINITY_BITS
    }

    /// Whether this is a number other than the infinities.
    pub fn is_finite(self) -> (r: bool)
        ensures
            r == (self.spec_magnitude() < INFINITY_BITS),
    {
        self.magnitude() < INFINITY_BITS
    }

    /// Whether `self` is less than `other`.
    pub fn lt(self, other: Self) -> (r: bool)
        ensures
            r == self.spec_lt(other),
    {
        if self.is_nan() || other.is_nan() {
            return false;
        }
        let a = self.magnitude();
        let b = other.magnitude();
        if self.bits >= SIGN_BIT {
            if other.bits >= SIGN_BIT {
                a > b
            } else {
                a > 0 || b > 0
            }
        } else {
            other.bits < SIGN_BIT && a < b
        }
    }

    /// Whether `self` is at most `other`.
    pub fn le(self, other: Self) -> (r: bool)
        ensures
            r == self.spec_le(other),
    {
        if self.is_nan() || other.is_nan() {
            return false;
        }
        !other.lt(self)
    }

    /// The larger of two numbers: the other one, where one is not a number.
    pub open spec fn spec_max(self, other: Self) -> Self {
        if self.spec_is_nan() || self.spec_lt(other) {
            other
        } else {
            self
        }
    }

    /// The smaller of two numbers: the other one, where one is not a number.
    pub open spec fn spec_min(self, other: Self) -> Self {
        if self.spec_is_nan() || other.spec_lt(self) {
            other
        } else {
            self
        }
    }

    /// The larger of two numbers: the other one, where one is not a number.
    pub fn max(self, other: Self) -> (r: Self)
        ensures
            r == self.spec_max(other),
    {
        if self.is_nan() || self.lt(other) {
            other
        } else {
            self
        }
    }

    /// The smaller of two numbers: the other one, where one is not a number.
    pub fn min(self, other: Self) -> (r: Self)
        ensures
            r == self.spec_min(other),
    {
        if self.is_nan() || other.lt(self) {
            other
        } else {
            self
        }
    }

    /// The number without its sign.
    pub fn abs(self) -> (r: Self)
        ensures
            r.bits == self.spec_magnitude(),
    {
        Single { bits: self.magnitude() }
    }
}

/// Numbers are equal where they stand for the same number.
pub proof fn law_equal_numbers_are_equal(a: Single, b: Single)
    requires
        number(a) is Some,
        number(b) is Some,
    ensures
        a.eq_spec(&b) <==> number(a) == number(b),
{
    law_order_is_that_of_the_numbers(a, b);
}

/// What is not a number is not less than anything, not equal to anything, itself
/// included, and gives way to the other of two.
pub proof fn law_what_is_no_number_gives_way(a: Single, b: Single)
    requires
        a.spec_is_nan(),
    ensures
        !a.spec_lt(b) && !b.spec_lt(a) && !a.spec_le(b) && !b.spec_le(a),
        !a.eq_spec(&b) && !b.eq_spec(&a),
        a.spec_max(b) == b && a.spec_min(b) == b,
        !b.spec_is_nan() ==> b.spec_max(a) == b && b.spec_min(a) == b,
{
}

/// The infinities are numbers, and every finite number lies between them. What is
/// neither finite nor infinite is not a number.
pub proof fn law_infinities_lie_outside(value: Single, positive: Single, negative: Single)
    requires
        positive.bits == INFINITY_BITS,
        negative.bits == INFINITY_BITS + SIGN_BIT,
    ensures
        number(value) is Some ==> negative.spec_lt(value) && value.spec_lt(positive),
        positive.eq_spec(&positive) && negative.eq_spec(&negative),
        negative.spec_lt(positive),
        value.spec_is_nan() <==> number(value) is None && value.bits != positive.bits && value.bits
            != negative.bits,
{
}

}
