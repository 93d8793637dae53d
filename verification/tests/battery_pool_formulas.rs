//! The capacity and SoC expressions of battery pools.

use std::collections::HashMap;

use frequenz_microgrid_formula_engine as engine;

use frequenz_microgrid::client::proto::Metric as MetricPb;
use frequenz_microgrid::microgrid::battery_pool_formulas::{
    soc, usable_capacity, PoolExpr, PoolKey, Source,
};
use frequenz_microgrid::microgrid::telemetry_tracker::inverter_battery_group::InverterBatteryGroup;

fn to_float(expr: &PoolExpr) -> engine::Formula<f32, PoolKey> {
    match expr {
        engine::Formula::Constant(value) => {
            engine::Formula::Constant(value.map(|v| f32::from_bits(v.to_bits())))
        }
        engine::Formula::Neg(inner) => engine::Formula::Neg(Box::new(to_float(inner))),
        engine::Formula::Sum { first, rest } => engine::Formula::Sum {
            first: Box::new(to_float(first)),
            rest: rest.iter().map(|(op, e)| (*op, to_float(e))).collect(),
        },
        engine::Formula::Product { first, rest } => engine::Formula::Product {
            first: Box::new(to_float(first)),
            rest: rest.iter().map(|(op, e)| (*op, to_float(e))).collect(),
        },
        engine::Formula::Function { function, args } => engine::Formula::Function {
            function: *function,
            args: args.iter().map(to_float).collect(),
        },
        engine::Formula::Component(key) => engine::Formula::Component(*key),
    }
}

fn group(inverters: &[u64], batteries: &[u64]) -> InverterBatteryGroup {
    InverterBatteryGroup::new(
        inverters.iter().copied().collect(),
        batteries.iter().copied().collect(),
    )
}

fn key(component_id: u64, source: Source) -> PoolKey {
    PoolKey {
        component_id,
        source,
    }
}

/// Readings for one battery: capacity in Wh, SoC bounds and SoC in percent.
/// `None` is a known-missing reading.
fn battery(
    id: u64,
    capacity: Option<f32>,
    lower: Option<f32>,
    upper: Option<f32>,
    soc: Option<f32>,
) -> [(PoolKey, Option<f32>); 4] {
    [
        (key(id, Source::Value(MetricPb::BatteryCapacity)), capacity),
        (key(id, Source::LowerBound(MetricPb::BatterySocPct)), lower),
        (key(id, Source::UpperBound(MetricPb::BatterySocPct)), upper),
        (key(id, Source::Value(MetricPb::BatterySocPct)), soc),
    ]
}

fn healthy(inverter_id: u64) -> (PoolKey, Option<f32>) {
    (key(inverter_id, Source::Health), Some(1.0))
}

fn unhealthy(inverter_id: u64) -> (PoolKey, Option<f32>) {
    (key(inverter_id, Source::Health), None)
}

fn evaluate(
    expr: &PoolExpr,
    readings: impl IntoIterator<Item = (PoolKey, Option<f32>)>,
) -> Option<f32> {
    let mut values: HashMap<PoolKey, Option<f32>> = readings.into_iter().collect();
    match to_float(expr).evaluate(&mut values).unwrap() {
        engine::Reading::Known(value) => value,
        engine::Reading::Unknown => panic!("every leaf must have a reading"),
    }
}

#[test]
fn usable_capacity_sums_the_bounded_share_of_each_battery() {
    let expr = usable_capacity(&vec![group(&[3], &[4, 5])]);
    let value = evaluate(
        &expr,
        battery(4, Some(1000.0), Some(10.0), Some(90.0), Some(50.0))
            .into_iter()
            .chain(battery(5, Some(2000.0), Some(20.0), Some(100.0), Some(50.0)))
            .chain([healthy(3)]),
    );
    assert_eq!(value, Some(800.0 + 1600.0));
}

#[test]
fn usable_capacity_skips_a_battery_with_a_missing_input() {
    let expr = usable_capacity(&vec![group(&[3], &[4, 5])]);
    let value = evaluate(
        &expr,
        battery(4, Some(1000.0), Some(10.0), None, Some(50.0))
            .into_iter()
            .chain(battery(5, Some(2000.0), Some(20.0), Some(100.0), Some(50.0)))
            .chain([healthy(3)]),
    );
    assert_eq!(value, Some(1600.0));
}

#[test]
fn usable_capacity_skips_a_group_with_an_unhealthy_inverter() {
    let expr = usable_capacity(&vec![group(&[3], &[4]), group(&[6, 7], &[8])]);
    let value = evaluate(
        &expr,
        battery(4, Some(1000.0), Some(10.0), Some(90.0), Some(50.0))
            .into_iter()
            .chain(battery(8, Some(2000.0), Some(20.0), Some(100.0), Some(50.0)))
            .chain([healthy(3), healthy(6), unhealthy(7)]),
    );
    assert_eq!(value, Some(800.0));
}

#[test]
fn usable_capacity_of_inverted_bounds_is_zero() {
    let expr = usable_capacity(&vec![group(&[3], &[4])]);
    let value = evaluate(
        &expr,
        battery(4, Some(1000.0), Some(90.0), Some(10.0), Some(50.0))
            .into_iter()
            .chain([healthy(3)]),
    );
    assert_eq!(value, Some(0.0));
}

#[test]
fn usable_capacity_is_none_without_a_contributing_battery() {
    let expr = usable_capacity(&vec![group(&[3], &[4])]);
    let value = evaluate(
        &expr,
        battery(4, None, None, None, None)
            .into_iter()
            .chain([healthy(3)]),
    );
    assert_eq!(value, None);
    assert_eq!(
        evaluate(&usable_capacity(&vec![]), std::iter::empty()),
        None
    );

    let partial = usable_capacity(&vec![group(&[3], &[4, 5])]);
    let value = evaluate(
        &partial,
        battery(4, None, None, None, None)
            .into_iter()
            .chain(battery(5, Some(2000.0), Some(20.0), Some(100.0), Some(50.0)))
            .chain([healthy(3)]),
    );
    assert_eq!(
        value,
        Some(1600.0),
        "a non-contributing battery must not blank a contributing one"
    );
}

#[test]
fn soc_weights_each_battery_by_its_usable_capacity() {
    let expr = soc(&vec![group(&[3], &[4, 5])]);
    let value = evaluate(
        &expr,
        battery(4, Some(1000.0), Some(10.0), Some(90.0), Some(50.0))
            .into_iter()
            .chain(battery(5, Some(2000.0), Some(20.0), Some(100.0), Some(100.0)))
            .chain([healthy(3)]),
    );
    // Battery 4: usable 800 Wh, scaled SoC 50 %. Battery 5: usable 1600 Wh,
    // scaled SoC 100 %. (800 * 50 + 1600 * 100) / 2400.
    assert!((value.unwrap() - 83.333336).abs() < 1e-3, "{value:?}");
}

#[test]
fn soc_drops_a_battery_without_soc_from_the_weights_too() {
    let expr = soc(&vec![group(&[3], &[4, 5])]);
    let value = evaluate(
        &expr,
        battery(4, Some(1000.0), Some(10.0), Some(90.0), None)
            .into_iter()
            .chain(battery(5, Some(2000.0), Some(20.0), Some(100.0), Some(100.0)))
            .chain([healthy(3)]),
    );
    assert_eq!(
        value,
        Some(100.0),
        "battery 4 must not stay in the denominator"
    );
}

#[test]
fn soc_clamps_a_reading_outside_the_bounds() {
    let expr = soc(&vec![group(&[3], &[4])]);
    let below = evaluate(
        &expr,
        battery(4, Some(1000.0), Some(10.0), Some(90.0), Some(5.0))
            .into_iter()
            .chain([healthy(3)]),
    );
    let above = evaluate(
        &expr,
        battery(4, Some(1000.0), Some(10.0), Some(90.0), Some(95.0))
            .into_iter()
            .chain([healthy(3)]),
    );
    assert_eq!(below, Some(0.0));
    assert_eq!(above, Some(100.0));
}

#[test]
fn soc_is_none_without_a_contributing_battery() {
    let expr = soc(&vec![group(&[3], &[4])]);
    let unhealthy_inverter = evaluate(
        &expr,
        battery(4, Some(1000.0), Some(10.0), Some(90.0), Some(50.0))
            .into_iter()
            .chain([unhealthy(3)]),
    );
    let equal_bounds = evaluate(
        &expr,
        battery(4, Some(1000.0), Some(50.0), Some(50.0), Some(50.0))
            .into_iter()
            .chain([healthy(3)]),
    );
    assert_eq!(unhealthy_inverter, None);
    assert_eq!(equal_bounds, None);
    assert_eq!(evaluate(&soc(&vec![]), std::iter::empty()), None);
}

#[test]
fn soc_of_inverted_bounds_is_none() {
    let expr = soc(&vec![group(&[3], &[4])]);
    let value = evaluate(
        &expr,
        battery(4, Some(1000.0), Some(90.0), Some(10.0), Some(50.0))
            .into_iter()
            .chain([healthy(3)]),
    );
    assert_eq!(
        value, None,
        "inverted bounds leave the only battery no weight"
    );
}

#[test]
fn soc_ignores_a_battery_with_inverted_bounds() {
    let expr = soc(&vec![group(&[3], &[4, 5])]);
    let value = evaluate(
        &expr,
        battery(4, Some(1000.0), Some(10.0), Some(90.0), Some(50.0))
            .into_iter()
            .chain(battery(5, Some(2000.0), Some(90.0), Some(10.0), Some(100.0)))
            .chain([healthy(3)]),
    );
    assert_eq!(
        value,
        Some(50.0),
        "a battery with inverted bounds carries no weight into the mean"
    );
}
