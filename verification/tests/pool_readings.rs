//! What the expressions of battery pools read, and what they are worth.

use frequenz_microgrid_formula_engine as engine;

use frequenz_microgrid::client::proto::{
    Bounds, Coded, ElectricalComponentStateCode, ElectricalComponentStateSnapshot,
    ElectricalComponentTelemetry, Metric, MetricSample, MetricValue, MetricValueVariant,
};
use frequenz_microgrid::logical_meter::logical_meter_actor::ReadOutcome;
use frequenz_microgrid::microgrid::battery_pool_formulas::{
    soc, usable_capacity, PoolExpr, PoolKey, Source,
};
use frequenz_microgrid::microgrid::pool_readings::{reading, PoolReadings};
use frequenz_microgrid::microgrid::pool_tracking::healthy_state_codes;
use frequenz_microgrid::microgrid::pool_validation::PoolKind;
use frequenz_microgrid::microgrid::telemetry_tracker::inverter_battery_group::InverterBatteryGroup;
use frequenz_microgrid::single::Single;

const READY: ElectricalComponentStateCode = ElectricalComponentStateCode::Ready;
const ERROR: ElectricalComponentStateCode = ElectricalComponentStateCode::Error;

fn single(value: f32) -> Single {
    Single::from_bits(value.to_bits())
}

fn float(value: Single) -> f32 {
    f32::from_bits(value.to_bits())
}

fn sample(metric: Metric, value: f32, bounds: &[(f32, f32)]) -> MetricSample {
    MetricSample {
        sample_time: None,
        metric: Coded::Known(metric),
        value: Some(MetricValue {
            metric_value_variant: Some(MetricValueVariant::SimpleMetric {
                value: single(value),
            }),
        }),
        bounds: bounds
            .iter()
            .map(|&(lower, upper)| Bounds {
                lower: Some(single(lower)),
                upper: Some(single(upper)),
            })
            .collect(),
    }
}

fn frame(
    id: u64,
    state: ElectricalComponentStateCode,
    metric_samples: Vec<MetricSample>,
) -> ElectricalComponentTelemetry {
    ElectricalComponentTelemetry {
        electrical_component_id: id,
        metric_samples,
        state_snapshots: vec![ElectricalComponentStateSnapshot {
            states: vec![Coded::Known(state)],
            errors: vec![],
        }],
    }
}

fn battery(
    id: u64,
    state: ElectricalComponentStateCode,
    capacity: f32,
    charge: f32,
    bounds: &[(f32, f32)],
) -> ElectricalComponentTelemetry {
    frame(
        id,
        state,
        vec![
            sample(Metric::BatteryCapacity, capacity, &[]),
            sample(Metric::BatterySocPct, charge, bounds),
        ],
    )
}

fn key(component_id: u64, source: Source) -> PoolKey {
    PoolKey {
        component_id,
        source,
    }
}

/// A pool of one inverter, 3, with the batteries 4 and 5. Telemetry counts for
/// ten nanoseconds.
fn site() -> (Vec<InverterBatteryGroup>, PoolReadings) {
    let group = InverterBatteryGroup::new([3].into(), [4, 5].into());
    let readings = PoolReadings::new(healthy_state_codes(PoolKind::Batteries), 10);
    (vec![group], readings)
}

fn hear(readings: &mut PoolReadings, at: u128, states: [ElectricalComponentStateCode; 3]) {
    readings.received(3, at, frame(3, states[0], vec![]));
    readings.received(4, at, battery(4, states[1], 1000.0, 50.0, &[(10.0, 90.0)]));
    readings.received(5, at, battery(5, states[2], 2000.0, 100.0, &[(20.0, 100.0)]));
}

struct At<'a>(&'a PoolReadings, u128);

impl engine::ValueSource<f32, PoolKey> for At<'_> {
    fn read(&mut self, key: &PoolKey) -> engine::Reading<f32> {
        match self.0.read(*key, self.1) {
            ReadOutcome::Known(value) => engine::Reading::Known(value.map(float)),
            ReadOutcome::Unknown => engine::Reading::Unknown,
        }
    }
}

fn to_float(expr: &PoolExpr) -> engine::Formula<f32, PoolKey> {
    match expr {
        engine::Formula::Constant(value) => engine::Formula::Constant(value.map(float)),
        engine::Formula::Neg(inner) => engine::Formula::Neg(Box::new(to_float(inner))),
        engine::Formula::Sum { first, rest } => engine::Formula::Sum {
            first: Box::new(to_float(first)),
            rest: rest.iter().map(|(op, e)| (*op, to_float(e))).collect(),
        },
        engine::Formula::Product { first, rest } => engine::Formula::Product {
            first: Box::new(to_float(first)),
            rest: rest.iter().map(|(op, e)| (*op, to_float(e))).collect(),
        },
        engine::Formula::Function { function, args } => engine::Formula::Function {
            function: *function,
            args: args.iter().map(to_float).collect(),
        },
        engine::Formula::Component(key) => engine::Formula::Component(*key),
    }
}

/// The value of an expression: `None` where it is not known.
fn value(expr: &PoolExpr, readings: &PoolReadings, now: u128) -> Option<Option<f32>> {
    match to_float(expr).evaluate(&mut At(readings, now)).unwrap() {
        engine::Reading::Known(value) => Some(value),
        engine::Reading::Unknown => None,
    }
}

#[test]
fn a_healthy_component_reads_what_it_sent() {
    let codes = healthy_state_codes(PoolKind::Batteries);
    let sent = battery(4, READY, 1000.0, 50.0, &[(10.0, 90.0), (0.0, 100.0)]);
    let read = |source| reading(key(4, source), Some(&sent), &codes).map(float);
    let charge = Metric::BatterySocPct;
    assert_eq!(read(Source::Health), Some(1.0));
    assert_eq!(read(Source::Value(charge)), Some(50.0));
    assert_eq!(read(Source::Value(Metric::BatteryCapacity)), Some(1000.0));
    // Only the first bounds are read.
    assert_eq!(read(Source::LowerBound(charge)), Some(10.0));
    assert_eq!(read(Source::UpperBound(charge)), Some(90.0));
    assert_eq!(read(Source::LowerBound(Metric::BatteryCapacity)), None);
    assert_eq!(read(Source::UpperBound(Metric::BatteryCapacity)), None);
    assert_eq!(read(Source::Value(Metric::DcPower)), None);
    assert_eq!(read(Source::LowerBound(Metric::DcPower)), None);
    assert_eq!(read(Source::UpperBound(Metric::DcPower)), None);
}

#[test]
fn an_unhealthy_component_reads_nothing() {
    let codes = healthy_state_codes(PoolKind::Batteries);
    let sent = battery(4, ERROR, 1000.0, 50.0, &[(10.0, 90.0)]);
    let charge = Metric::BatterySocPct;
    for source in [
        Source::Health,
        Source::Value(charge),
        Source::LowerBound(charge),
        Source::UpperBound(charge),
    ] {
        assert_eq!(reading(key(4, source), Some(&sent), &codes), None);
        assert_eq!(reading(key(4, source), None, &codes), None);
    }
}

#[test]
fn readings_are_unknown_until_the_component_is_subscribed_to() {
    let (groups, mut readings) = site();
    let health = key(3, Source::Health);
    assert_eq!(readings.read(health, 0), ReadOutcome::Unknown);
    readings.subscribed(3);
    assert_eq!(readings.read(health, 0), ReadOutcome::Known(None));
    readings.received(3, 0, frame(3, READY, vec![]));
    assert_eq!(readings.read(health, 0), ReadOutcome::Known(Some(single(1.0))));
    readings.subscribed(4);
    readings.received(4, 0, battery(4, READY, 1000.0, 50.0, &[(10.0, 90.0)]));
    // Battery 5 is not subscribed to yet.
    assert_eq!(value(&usable_capacity(&groups), &readings, 0), None);
    assert_eq!(value(&soc(&groups), &readings, 0), None);
    readings.subscribed(5);
    assert_eq!(value(&usable_capacity(&groups), &readings, 0), Some(Some(800.0)));
}

#[test]
fn old_telemetry_does_not_count() {
    let (groups, mut readings) = site();
    hear(&mut readings, 100, [READY, READY, READY]);
    let expr = usable_capacity(&groups);
    assert_eq!(value(&expr, &readings, 109), Some(Some(2400.0)));
    assert_eq!(value(&expr, &readings, 110), Some(None));
    // A component that goes on sending counts, one that does not is left out.
    readings.received(3, 108, frame(3, READY, vec![]));
    readings.received(5, 108, battery(5, READY, 2000.0, 100.0, &[(20.0, 100.0)]));
    assert_eq!(value(&expr, &readings, 112), Some(Some(1600.0)));
    // A clock that went back makes nothing old.
    assert_eq!(value(&expr, &readings, 0), Some(Some(2400.0)));
}

#[test]
fn an_unhealthy_battery_contributes_nothing() {
    let (groups, mut readings) = site();
    hear(&mut readings, 0, [READY, READY, ERROR]);
    assert_eq!(value(&usable_capacity(&groups), &readings, 0), Some(Some(800.0)));
    assert_eq!(value(&soc(&groups), &readings, 0), Some(Some(50.0)));
}

#[test]
fn an_unhealthy_pool_has_no_reading() {
    let (groups, mut readings) = site();
    for states in [[ERROR, READY, READY], [READY, ERROR, ERROR]] {
        hear(&mut readings, 0, states);
        assert_eq!(value(&usable_capacity(&groups), &readings, 0), Some(None));
        assert_eq!(value(&soc(&groups), &readings, 0), Some(None));
    }
    hear(&mut readings, 0, [READY, READY, READY]);
    assert_eq!(value(&usable_capacity(&groups), &readings, 0), Some(Some(2400.0)));
}

#[test]
fn inverted_bounds_add_zero() {
    let (groups, mut readings) = site();
    hear(&mut readings, 0, [READY, READY, ERROR]);
    readings.received(4, 0, battery(4, READY, 1000.0, 50.0, &[(90.0, 10.0)]));
    assert_eq!(value(&usable_capacity(&groups), &readings, 0), Some(Some(0.0)));
    readings.received(5, 0, battery(5, READY, 2000.0, 100.0, &[(20.0, 100.0)]));
    assert_eq!(value(&usable_capacity(&groups), &readings, 0), Some(Some(1600.0)));
}
