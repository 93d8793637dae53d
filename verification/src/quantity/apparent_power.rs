//! Apparent power.

use std::cmp::Ordering;

use vstd::arithmetic::power2::lemma2_to64;
use vstd::prelude::*;
use vstd::std_specs::cmp::{PartialEqSpec, PartialOrdSpec};

use crate::logical_meter::exact::{
    law_bits_of_zero_and_one, law_magnitude_is_the_absolute_value,
    law_order_is_that_of_the_numbers, number, two_to,
};
use crate::quantity::unit::{
    ascending_units, fitting, in_fitting_unit, is_in_unit, is_written,
    law_the_fitting_unit_is_the_greatest_reached, Unit,
};
use crate::quantity::Quantity;
use crate::single::{Single, ONE_BITS, ZERO_BITS};

verus! {

/// The bits of a thousand.
pub const KILO_BITS: u32 = 0x447a_0000;

/// The bits of a million.
pub const MEGA_BITS: u32 = 0x4974_2400;

/// A physical quantity representing apparent power.
#[derive(Clone, Copy, Debug)]
pub struct ApparentPower {
    value: Single,
}

impl Default for ApparentPower {
    /// No power.
    fn default() -> (r: Self)
        ensures
            r.spec_base_value().bits == ZERO_BITS,
    {
        ApparentPower { value: Single::from_bits(ZERO_BITS) }
    }
}

impl PartialEq for ApparentPower {
    fn eq(&self, other: &Self) -> (r: bool) {
        self.value == other.value
    }
}

impl vstd::std_specs::cmp::PartialEqSpecImpl for ApparentPower {
    open spec fn obeys_eq_spec() -> bool {
        true
    }

    open spec fn eq_spec(&self, other: &Self) -> bool {
        self.spec_base_value().is_equal(other.spec_base_value())
    }
}

impl PartialOrd for ApparentPower {
    fn partial_cmp(&self, other: &Self) -> (r: Option<Ordering>) {
        if self.value.lt(other.value) {
            Some(Ordering::Less)
        } else if other.value.lt(self.value) {
            Some(Ordering::Greater)
        } else if self.value.le(other.value) {
            Some(Ordering::Equal)
        } else {
            None
        }
    }
}

impl vstd::std_specs::cmp::PartialOrdSpecImpl for ApparentPower {
    open spec fn obeys_partial_cmp_spec() -> bool {
        true
    }

    open spec fn partial_cmp_spec(&self, other: &Self) -> Option<Ordering> {
        let a = self.spec_base_value();
        let b = other.spec_base_value();
        if a.spec_lt(b) {
            Some(Ordering::Less)
        } else if b.spec_lt(a) {
            Some(Ordering::Greater)
        } else if a.is_equal(b) {
            Some(Ordering::Equal)
        } else {
            None
        }
    }
}

impl Quantity for ApparentPower {
    closed spec fn spec_base_value(self) -> Single {
        self.value
    }

    fn base_value(self) -> (r: Single) {
        self.value
    }

    fn from_base_value(value: Single) -> (r: Self) {
        ApparentPower { value }
    }
}

/// The units of apparent power, in ascending order.
pub open spec fn spec_units() -> Seq<Unit> {
    seq![
        Unit { name: "VA", scale: Single { bits: ONE_BITS } },
        Unit { name: "kVA", scale: Single { bits: KILO_BITS } },
        Unit { name: "MVA", scale: Single { bits: MEGA_BITS } },
    ]
}

fn units() -> (r: Vec<Unit>)
    ensures
        r@ == spec_units(),
{
    let mut r: Vec<Unit> = Vec::new();
    r.push(Unit { name: "VA", scale: Single::from_bits(ONE_BITS) });
    r.push(Unit { name: "kVA", scale: Single::from_bits(KILO_BITS) });
    r.push(Unit { name: "MVA", scale: Single::from_bits(MEGA_BITS) });
    assert(r@ =~= spec_units());
    r
}

impl ApparentPower {
    /// The given number of volt-amperes. `times` multiplies numbers.
    pub fn from_volt_amperes<F: Fn(Single, Single) -> Single>(value: Single, times: &F) -> (r: Self)
        requires
            forall|a: Single, b: Single| #[trigger] call_requires(*times, (a, b)),
        ensures
            call_ensures(*times, (value, Single { bits: ONE_BITS }), r.spec_base_value()),
    {
        ApparentPower { value: times(value, Single::from_bits(ONE_BITS)) }
    }

    /// The given number of kilovolt-amperes. `times` multiplies numbers.
    pub fn from_kilovolt_amperes<F: Fn(Single, Single) -> Single>(
        value: Single,
        times: &F,
    ) -> (r: Self)
        requires
            forall|a: Single, b: Single| #[trigger] call_requires(*times, (a, b)),
        ensures
            call_ensures(*times, (value, Single { bits: KILO_BITS }), r.spec_base_value()),
    {
        ApparentPower { value: times(value, Single::from_bits(KILO_BITS)) }
    }

    /// The given number of megavolt-amperes. `times` multiplies numbers.
    pub fn from_megavolt_amperes<F: Fn(Single, Single) -> Single>(
        value: Single,
        times: &F,
    ) -> (r: Self)
        requires
            forall|a: Single, b: Single| #[trigger] call_requires(*times, (a, b)),
        ensures
            call_ensures(*times, (value, Single { bits: MEGA_BITS }), r.spec_base_value()),
    {
        ApparentPower { value: times(value, Single::from_bits(MEGA_BITS)) }
    }

    /// The number of volt-amperes. `over` divides numbers.
    pub fn as_volt_amperes<F: Fn(Single, Single) -> Single>(&self, over: &F) -> (r: Single)
        requires
            forall|a: Single, b: Single| #[trigger] call_requires(*over, (a, b)),
        ensures
            call_ensures(*over, (self.spec_base_value(), Single { bits: ONE_BITS }), r),
    {
        over(self.value, Single::from_bits(ONE_BITS))
    }

    /// The number of kilovolt-amperes. `over` divides numbers.
    pub fn as_kilovolt_amperes<F: Fn(Single, Single) -> Single>(&self, over: &F) -> (r: Single)
        requires
            forall|a: Single, b: Single| #[trigger] call_requires(*over, (a, b)),
        ensures
            call_ensures(*over, (self.spec_base_value(), Single { bits: KILO_BITS }), r),
    {
        over(self.value, Single::from_bits(KILO_BITS))
    }

    /// The number of megavolt-amperes. `over` divides numbers.
    pub fn as_megavolt_amperes<F: Fn(Single, Single) -> Single>(&self, over: &F) -> (r: Single)
        requires
            forall|a: Single, b: Single| #[trigger] call_requires(*over, (a, b)),
        ensures
            call_ensures(*over, (self.spec_base_value(), Single { bits: MEGA_BITS }), r),
    {
        over(self.value, Single::from_bits(MEGA_BITS))
    }

    /// The text of the quantity, in the unit that fits it. `over` divides
    /// numbers, and `render` writes a number in decimal with the given number of
    /// decimals.
    pub fn to_text<F: Fn(Single, Single) -> Single, R: Fn(Single, usize) -> String>(
        &self,
        precision: Option<usize>,
        over: &F,
        render: &R,
    ) -> (text: String)
        requires
            forall|a: Single, b: Single| #[trigger] call_requires(*over, (a, b)),
            forall|a: Single, n: usize| #[trigger] call_requires(*render, (a, n)),
        ensures
            is_written(
                self.spec_base_value(),
                spec_units(),
                precision,
                *over,
                *render,
                text@,
            ),
    {
        in_fitting_unit(self.value, &units(), precision, over, render)
    }
}

/// A kilovolt-ampere is a thousand volt-amperes, and a megavolt-ampere a million.
pub proof fn law_units_make_a_thousand_of_the_last()
    ensures
        spec_units().len() == 3,
        number(spec_units()[0].scale) == Some(1 as real),
        number(spec_units()[1].scale) == Some(1_000 as real),
        number(spec_units()[2].scale) == Some(1_000_000 as real),
        ascending_units(spec_units()),
{
    law_bits_of_zero_and_one();
    lemma2_to64();
    assert(two_to(-14) == (1 as real) / (0x4000 as real));
    assert((16_384_000 as real) * ((1 as real) / (0x4000 as real)) == 1_000 as real);
    assert(two_to(-4) == (1 as real) / (16 as real));
    assert((16_000_000 as real) * ((1 as real) / (16 as real)) == 1_000_000 as real);
}

/// Powers are compared as their values are.
pub proof fn law_powers_are_ordered_by_their_values(a: ApparentPower, b: ApparentPower)
    requires
        number(a.spec_base_value()) is Some,
        number(b.spec_base_value()) is Some,
    ensures
        ({
            let x = number(a.spec_base_value())->0;
            let y = number(b.spec_base_value())->0;
            &&& a.partial_cmp_spec(&b) == Some(Ordering::Less) <==> x < y
            &&& a.partial_cmp_spec(&b) == Some(Ordering::Greater) <==> x > y
            &&& a.partial_cmp_spec(&b) == Some(Ordering::Equal) <==> x == y
            &&& a.eq_spec(&b) <==> x == y
        }),
{
    law_order_is_that_of_the_numbers(a.spec_base_value(), b.spec_base_value());
    law_order_is_that_of_the_numbers(b.spec_base_value(), a.spec_base_value());
}

/// A power is written in megavolt-amperes from a million volt-amperes on, in
/// kilovolt-amperes from a thousand on, and else in volt-amperes; the sign does
/// not matter.
pub proof fn law_powers_are_written_in_their_unit<
    F: Fn(Single, Single) -> Single,
    R: Fn(Single, usize) -> String,
>(value: Single, unsigned: Single, precision: usize, over: F, render: R, text: Seq<char>)
    requires
        number(value) is Some,
        unsigned.bits == value.spec_magnitude(),
    ensures
        ({
            let size = number(unsigned)->0;
            let unit = if size >= 1_000_000 as real {
                spec_units()[2]
            } else if size >= 1_000 as real {
                spec_units()[1]
            } else {
                spec_units()[0]
            };
            &&& is_written(value, spec_units(), Some(precision), over, render, text) <==> is_in_unit(
                unit,
                value,
                precision,
                over,
                render,
                text,
            )
            &&& is_written(value, spec_units(), None, over, render, text) <==> is_in_unit(
                unit,
                value,
                3,
                over,
                render,
                text,
            )
        }),
{
    let units = spec_units();
    law_units_make_a_thousand_of_the_last();
    law_magnitude_is_the_absolute_value(value, unsigned);
    law_the_fitting_unit_is_the_greatest_reached(units, unsigned);
    law_order_is_that_of_the_numbers(units[1].scale, unsigned);
    law_order_is_that_of_the_numbers(units[2].scale, unsigned);
    let at = fitting(units, unsigned);
    assert(at > 0 ==> units[at].scale.spec_le(unsigned));
    assert(at < 1 ==> !units[1].scale.spec_le(unsigned));
    assert(at < 2 ==> !units[2].scale.spec_le(unsigned));
}

}
