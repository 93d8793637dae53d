//! Physical quantities.

use vstd::prelude::*;

use crate::logical_meter::exact::{law_order_is_that_of_the_numbers, number};
use crate::single::{Single, INFINITY_BITS};

pub mod apparent_power;
pub mod unit;

verus! {

/// The bits of the least number that is not infinite.
pub const LEAST_BITS: u32 = 0xff7f_ffff;

/// The bits of the greatest number that is not infinite.
pub const GREATEST_BITS: u32 = 0x7f7f_ffff;

/// A physical quantity, by its value in its base unit (watts, volts, amperes,
/// ...).
pub trait Quantity: Copy + Sized {
    /// The value in the quantity's base unit.
    spec fn spec_base_value(self) -> Single;

    /// The value in the quantity's base unit.
    fn base_value(self) -> (r: Single)
        ensures
            r == self.spec_base_value(),
    ;

    /// Builds the quantity from a value in its base unit.
    fn from_base_value(value: Single) -> (r: Self)
        ensures
            r.spec_base_value() == value,
    ;

    /// The least value that is not infinite.
    fn least() -> (r: Self)
        ensures
            r.spec_base_value().bits == LEAST_BITS,
    {
        Self::from_base_value(Single::from_bits(LEAST_BITS))
    }

    /// The greatest value that is not infinite.
    fn greatest() -> (r: Self)
        ensures
            r.spec_base_value().bits == GREATEST_BITS,
    {
        Self::from_base_value(Single::from_bits(GREATEST_BITS))
    }

    /// Nothing of the quantity.
    fn zero() -> (r: Self)
        ensures
            r.spec_base_value().bits == 0,
    {
        Self::from_base_value(Single::from_bits(0))
    }

    /// The quantity without its sign.
    fn abs(self) -> (r: Self)
        ensures
            r.spec_base_value().bits == self.spec_base_value().spec_magnitude(),
    {
        Self::from_base_value(self.base_value().abs())
    }

    /// Whether the value is not a number.
    fn is_nan(self) -> (r: bool)
        ensures
            r == self.spec_base_value().spec_is_nan(),
    {
        self.base_value().is_nan()
    }

    /// Whether the value is infinite.
    fn is_infinite(self) -> (r: bool)
        ensures
            r == (self.spec_base_value().spec_magnitude() == INFINITY_BITS),
    {
        self.base_value().is_infinite()
    }

    /// The lesser of two quantities; where one is not a number, the other.
    fn min(self, other: Self) -> (r: Self)
        ensures
            r.spec_base_value() == Single::spec_min(self.spec_base_value(), other.spec_base_value()),
    {
        Self::from_base_value(self.base_value().min(other.base_value()))
    }

    /// The greater of two quantities; where one is not a number, the other.
    fn max(self, other: Self) -> (r: Self)
        ensures
            r.spec_base_value() == Single::spec_max(self.spec_base_value(), other.spec_base_value()),
    {
        Self::from_base_value(self.base_value().max(other.base_value()))
    }
}

impl Quantity for Single {
    open spec fn spec_base_value(self) -> Single {
        self
    }

    fn base_value(self) -> (r: Single) {
        self
    }

    fn from_base_value(value: Single) -> (r: Self) {
        value
    }
}

/// Every finite number lies between the least and the greatest.
pub proof fn law_the_least_and_the_greatest(value: Single)
    requires
        number(value) is Some,
    ensures
        ({
            let least = Single { bits: LEAST_BITS };
            let greatest = Single { bits: GREATEST_BITS };
            &&& number(least) matches Some(l) && number(greatest) matches Some(g) && l
                <= number(value)->0 <= g
        }),
{
    law_order_is_that_of_the_numbers(Single { bits: LEAST_BITS }, value);
    law_order_is_that_of_the_numbers(value, Single { bits: GREATEST_BITS });
}

}
