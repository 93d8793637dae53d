//! Quantities and numbers by their bits.

use std::cmp::Ordering;

use frequenz_microgrid::quantity::apparent_power::ApparentPower;
use frequenz_microgrid::quantity::unit::{fitting_unit, format_float, Unit};
use frequenz_microgrid::quantity::Quantity;
use frequenz_microgrid::single::Single;

fn single(value: f32) -> Single {
    Single::from_bits(value.to_bits())
}

fn float(value: Single) -> f32 {
    f32::from_bits(value.to_bits())
}

fn times(a: Single, b: Single) -> Single {
    single(float(a) * float(b))
}

fn over(a: Single, b: Single) -> Single {
    single(float(a) / float(b))
}

fn render(value: Single, precision: usize) -> String {
    format!("{:.1$}", float(value), precision)
}

fn text(s: ApparentPower) -> String {
    s.to_text(None, &over, &render)
}

fn assert_f32_eq(a: f32, b: f32) {
    let epsilon: f32 = 10.0_f32.powf(a.log10().min(b.log10())) * 1e-6;
    if (a - b).abs() > epsilon {
        panic!("`{a}` is not about `{b}` (epsilon: {epsilon})");
    }
}

#[test]
fn test_apparent_power() {
    let s = ApparentPower::from_kilovolt_amperes(single(1.5), &times);
    assert_f32_eq(float(s.as_volt_amperes(&over)), 1500.0);
    assert_f32_eq(float(s.as_megavolt_amperes(&over)), 0.0015);
    assert_eq!(text(s), "1.5 kVA");
    let doubled = ApparentPower::from_base_value(times(s.base_value(), single(2.0)));
    assert_f32_eq(float(doubled.as_kilovolt_amperes(&over)), 3.0);
    assert_f32_eq(
        float(ApparentPower::zero().as_volt_amperes(&over)),
        0.0,
    );
}

#[test]
fn base_values_of_apparent_power_are_volt_amperes() {
    let s = ApparentPower::from_volt_amperes(single(42.0), &times);
    assert_eq!(float(s.base_value()), 42.0);
    assert_eq!(ApparentPower::from_base_value(single(42.0)), s);
    let s = ApparentPower::from_megavolt_amperes(single(2.0), &times);
    assert_eq!(float(s.base_value()), 2_000_000.0);
    assert_eq!(float(single(1.5).base_value()), 1.5);
    assert_eq!(Single::from_base_value(single(7.0)), single(7.0));
}

#[test]
fn the_unit_fits_the_value() {
    let of = |v: f32| text(ApparentPower::from_base_value(single(v)));
    assert_eq!(of(0.0), "0 VA");
    assert_eq!(of(0.25), "0.25 VA");
    assert_eq!(of(1.0), "1 VA");
    assert_eq!(of(999.0), "999 VA");
    assert_eq!(of(1000.0), "1 kVA");
    assert_eq!(of(-2500.0), "-2.5 kVA");
    assert_eq!(of(1_000_000.0), "1 MVA");
    assert_eq!(of(f32::NAN), "NaN MVA");
    assert_eq!(of(f32::INFINITY), "inf MVA");
    let s = ApparentPower::from_base_value(single(1234.5));
    assert_eq!(s.to_text(Some(1), &over, &render), "1.2 kVA");
    assert_eq!(s.to_text(Some(0), &over, &render), "1 kVA");
    assert_eq!(text(s), "1.235 kVA");
}

#[test]
fn a_single_unit_fits_everything() {
    let units = vec![Unit {
        name: "%",
        scale: single(1.0),
    }];
    assert_eq!(fitting_unit(&units, single(0.5)), 0);
    assert_eq!(fitting_unit(&units, single(1e9)), 0);
}

#[test]
fn zeros_at_the_end_are_left_out() {
    assert_eq!(format_float("1.500"), "1.5");
    assert_eq!(format_float("100.000"), "100");
    assert_eq!(format_float("100"), "100");
    assert_eq!(format_float("0.000"), "0");
    assert_eq!(format_float("-0.010"), "-0.01");
    assert_eq!(format_float("inf"), "inf");
    assert_eq!(format_float(""), "");
}

#[test]
fn quantities_compare_as_their_numbers_do() {
    let q = |v: f32| ApparentPower::from_base_value(single(v));
    assert_eq!(q(-3.0).abs(), q(3.0));
    assert_eq!(q(-0.0).abs(), q(0.0));
    assert_eq!(q(1.0).min(q(-2.0)), q(-2.0));
    assert_eq!(q(1.0).max(q(-2.0)), q(1.0));
    assert_eq!(q(f32::NAN).max(q(-2.0)), q(-2.0));
    assert_eq!(q(5.0).min(q(f32::NAN)), q(5.0));
    assert!(q(f32::NAN).is_nan());
    assert!(!q(f32::INFINITY).is_nan());
    assert!(q(f32::NEG_INFINITY).is_infinite());
    assert!(!q(f32::MAX).is_infinite());
    assert_eq!(ApparentPower::least(), q(f32::MIN));
    assert_eq!(ApparentPower::greatest(), q(f32::MAX));
}

#[test]
fn bits_compare_as_numbers() {
    let values = [
        f32::NEG_INFINITY,
        f32::MIN,
        -1.0,
        -f32::MIN_POSITIVE,
        -0.0,
        0.0,
        f32::MIN_POSITIVE,
        1.0,
        f32::MAX,
        f32::INFINITY,
        f32::NAN,
    ];
    for a in values {
        for b in values {
            assert_eq!(single(a).lt(single(b)), a < b, "{a} < {b}");
            assert_eq!(single(a).le(single(b)), a <= b, "{a} <= {b}");
        }
        assert_eq!(single(a).is_nan(), a.is_nan());
        assert_eq!(single(a).is_finite(), a.is_finite());
        assert_eq!(single(a).is_infinite(), a.is_infinite());
        assert_eq!(single(a).abs().to_bits(), a.abs().to_bits());
    }
}

#[test]
fn numbers_are_equal_by_value() {
    assert!(single(0.0) == single(-0.0));
    assert!(single(1.5) == single(1.5));
    assert!(single(1.5) != single(-1.5));
    assert!(single(f32::NAN) != single(f32::NAN));
    assert!(single(f32::INFINITY) == single(f32::INFINITY));
}

#[test]
fn apparent_powers_compare_by_value() {
    let power = |value: f32| ApparentPower::from_base_value(single(value));
    assert!(power(0.0) == power(-0.0));
    assert!(power(1.0) < power(2.0) && power(-1.0) < power(0.0));
    assert!(power(3.0) >= power(3.0));
    assert_eq!(power(-0.0).partial_cmp(&power(0.0)), Some(Ordering::Equal));
    assert_eq!(power(f32::NAN).partial_cmp(&power(0.0)), None);
    assert!(power(f32::NAN) != power(f32::NAN));
    assert_eq!(ApparentPower::default(), power(0.0));
}
