//! The bookkeeping of the logical-meter actor.

use std::collections::HashSet;

use chrono::{DateTime, TimeDelta, Utc};
use frequenz_microgrid_formula_engine as engine;

use frequenz_microgrid::client::proto::{
    Coded, ElectricalComponentTelemetry, Metric, MetricSample, MetricValue, MetricValueVariant,
    Timestamp,
};
use frequenz_microgrid::error::ErrorKind;
use frequenz_microgrid::logical_meter::config::LogicalMeterConfig;
use frequenz_microgrid::logical_meter::formula::Key;
use frequenz_microgrid::logical_meter::key_map::KeyMap;
use frequenz_microgrid::logical_meter::logical_meter_actor::{
    poll_telemetry, read, resample, resampled_value, sample_to_push, value_to_send,
    ComponentSubscription, Evaluation, FormulaOutcome, LogicalMeterActor, PollStep, Polled,
    ReadOutcome, SubscriptionAction,
};
use frequenz_microgrid::single::Single;
use frequenz_microgrid::time::UtcTime;
use frequenz_microgrid::wall_clock_timer::{first_tick_after, next_tick, NextTick};

type Actor = LogicalMeterActor<()>;

const SECOND: i128 = 1_000_000_000;

fn single(value: f32) -> Single {
    Single::from_bits(value.to_bits())
}

fn bare_actor() -> Actor {
    bare_actor_with(LogicalMeterConfig::new(TimeDelta::try_seconds(1).unwrap()))
}

fn bare_actor_with(config: LogicalMeterConfig<()>) -> Actor {
    LogicalMeterActor::try_new(config, 100 * SECOND).ok().unwrap()
}

fn active_power_key(component_id: u64) -> Key {
    Key {
        metric: Metric::AcPowerActive,
        component_id,
    }
}

fn snapshot(values: &[(Key, Option<f32>)]) -> KeyMap<Option<Single>> {
    let mut map = KeyMap::new();
    for (key, value) in values {
        map.insert(*key, value.map(single));
    }
    map
}

/// Reads keys as the library does, for the formula engine.
struct RecordingSource<'a> {
    snapshot: &'a KeyMap<Option<Single>>,
    reads: Vec<Key>,
}

impl engine::ValueSource<f32, Key> for RecordingSource<'_> {
    fn read(&mut self, key: &Key) -> engine::Reading<f32> {
        match read(self.snapshot, &mut self.reads, *key) {
            ReadOutcome::Known(value) => {
                engine::Reading::Known(value.map(|v| f32::from_bits(v.to_bits())))
            }
            ReadOutcome::Unknown => engine::Reading::Unknown,
        }
    }
}

/// Evaluates a formula, and gives what its subscribers are sent and what it
/// read.
fn evaluate(
    formula: &engine::Formula<f32, Key>,
    snapshot: &KeyMap<Option<Single>>,
) -> (Option<f32>, Vec<Key>) {
    let mut source = RecordingSource {
        snapshot,
        reads: vec![],
    };
    let evaluation = match formula.evaluate(&mut source) {
        Ok(engine::Reading::Known(value)) => Evaluation::Known(value.map(single)),
        Ok(engine::Reading::Unknown) => Evaluation::Unknown,
        Err(_) => Evaluation::Failed,
    };
    (
        value_to_send(evaluation).map(|v| f32::from_bits(v.to_bits())),
        source.reads,
    )
}

fn active_power(formula: &str) -> engine::Formula<f32, Key> {
    formula
        .parse::<engine::Formula<f32>>()
        .unwrap()
        .map_components(active_power_key)
}

#[test]
fn test_evaluate_formulas_sends_to_live_sinks_and_prunes_dead_ones() {
    let mut actor = bare_actor();
    let formula = active_power("#2");
    actor.handle_subscribe_formula("#2".to_string(), 1, &vec![]);
    actor.handle_subscribe_formula("#2".to_string(), 2, &vec![]);

    let (value, reads) = evaluate(&formula, &snapshot(&[(active_power_key(2), Some(7.5))]));
    assert_eq!(value, Some(7.5));
    // The second subscriber is gone.
    actor.evaluate_formulas(&vec![FormulaOutcome {
        reads,
        alive: vec![true, false],
    }]);
    assert_eq!(
        actor.formulas()[0].sinks,
        vec![1],
        "the dead sink should be gone"
    );

    // A key that is not in the snapshot reads as unknown, which the sink sees
    // as `None`.
    let (value, reads) = evaluate(&formula, &snapshot(&[]));
    assert_eq!(value, None);
    actor.evaluate_formulas(&vec![FormulaOutcome {
        reads,
        alive: vec![true],
    }]);
    assert_eq!(actor.formulas()[0].sinks.len(), 1);
}

#[test]
fn test_evaluate_formulas_mixes_metrics() {
    let mut actor = bare_actor();
    let ac_power = active_power_key(2);
    let dc_power = Key {
        metric: Metric::DcPower,
        component_id: 2,
    };
    let formula = "#2 - #3"
        .parse::<engine::Formula<f32>>()
        .unwrap()
        .map_components(|id| if id == 2 { dc_power } else { ac_power });
    actor.handle_subscribe_formula("loss".to_string(), 1, &vec![]);

    let (value, reads) = evaluate(
        &formula,
        &snapshot(&[(dc_power, Some(10.0)), (ac_power, Some(9.5))]),
    );
    assert_eq!(value, Some(0.5));
    let used = actor.evaluate_formulas(&vec![FormulaOutcome {
        reads,
        alive: vec![true],
    }]);
    assert_eq!(
        used.into_iter().collect::<HashSet<_>>(),
        HashSet::from([dc_power, ac_power])
    );
}

#[test]
fn test_evaluate_formulas_with_a_missing_operand() {
    let snapshot = snapshot(&[
        (active_power_key(2), Some(1.0)),
        (active_power_key(3), None),
    ]);
    for (formula, expected) in [
        ("AVG(#2, #3)", Some(1.0)),
        ("MIN(#2, #3)", None),
        ("#2 + #3", None),
        ("COALESCE(#3, #2)", Some(1.0)),
    ] {
        let mut actor = bare_actor();
        actor.handle_subscribe_formula(formula.to_string(), 1, &vec![]);
        let (value, reads) = evaluate(&active_power(formula), &snapshot);
        assert_eq!(value, expected, "{formula}");
        let used = actor.evaluate_formulas(&vec![FormulaOutcome {
            reads: reads.clone(),
            alive: vec![true],
        }]);
        assert_eq!(actor.formulas()[0].sinks, vec![1], "{formula}");
        assert_eq!(
            used.into_iter().collect::<HashSet<_>>(),
            reads.into_iter().collect::<HashSet<_>>(),
            "{formula}"
        );
    }
}

#[test]
fn test_evaluate_formulas_drops_formulas_that_lost_their_last_sink() {
    let mut actor = bare_actor();
    actor.handle_subscribe_formula("#2".to_string(), 1, &vec![]);
    let (_, reads) = evaluate(
        &active_power("#2"),
        &snapshot(&[(active_power_key(2), Some(1.0))]),
    );
    assert_eq!(reads, vec![active_power_key(2)]);

    let used = actor.evaluate_formulas(&vec![FormulaOutcome {
        reads,
        alive: vec![false],
    }]);

    assert!(
        actor.formulas().is_empty(),
        "the formula should go with its last sink"
    );
    assert!(
        used.is_empty(),
        "a dropped formula must not demand its components"
    );
}

#[test]
fn test_reconcile_subscriptions_ages_out_unread_keys() {
    let limit = 2;
    let mut actor = bare_actor_with(
        LogicalMeterConfig::new(TimeDelta::try_seconds(1).unwrap())
            .with_unsubscribe_after_intervals(limit),
    );
    for component_id in [2, 3] {
        let key = active_power_key(component_id);
        assert_eq!(actor.start_missing_subscriptions(&vec![key]), vec![key]);
        actor.subscription_done(key, true);
    }
    let used = vec![active_power_key(2)];

    // An unread key survives until it has gone unread for `limit` consecutive
    // ticks.
    for tick in 1..limit {
        let changes = actor.reconcile_subscriptions(&used);
        assert!(changes.started.is_empty());
        assert!(changes.dropped.is_empty());
        assert_eq!(
            actor.subscriptions().len(),
            2,
            "dropped too early on tick {tick}"
        );
    }
    let changes = actor.reconcile_subscriptions(&used);

    assert_eq!(changes.dropped, vec![active_power_key(3)]);
    assert_eq!(
        actor.subscriptions(),
        &vec![(
            active_power_key(2),
            ComponentSubscription {
                connected: true,
                idle_ticks: 0
            }
        )]
    );
    assert!(
        changes.started.is_empty(),
        "no subscription should start for an already-resampled key"
    );
}

#[test]
fn test_reconcile_subscriptions_starts_missing_keys() {
    let mut actor = bare_actor();
    let changes = actor.reconcile_subscriptions(&vec![active_power_key(2)]);

    assert_eq!(actor.subscriptions().len(), 1);
    assert!(
        !actor.subscriptions()[0].1.connected,
        "the receiver attaches only once the subscription completes"
    );
    assert_eq!(changes.started, vec![active_power_key(2)]);
}

/// A sample as the resampler takes it.
#[derive(Clone, Debug, Default)]
struct Sample {
    timestamp: DateTime<Utc>,
    value: Option<f32>,
}

impl frequenz_resampling::Sample for Sample {
    type Value = f32;

    fn new(timestamp: DateTime<Utc>, value: Option<f32>) -> Self {
        Sample { timestamp, value }
    }

    fn timestamp(&self) -> DateTime<Utc> {
        self.timestamp
    }

    fn value(&self) -> Option<f32> {
        self.value
    }
}

#[test]
fn test_resampler_empty_window_yields_single_none_sample() {
    let interval = TimeDelta::try_seconds(1).unwrap();
    let current = DateTime::from_timestamp(1_700_000_000, 0).unwrap();
    let start = current - interval;
    let mut resampler: frequenz_resampling::Resampler<f32, Sample> =
        frequenz_resampling::Resampler::new(
            interval,
            frequenz_resampling::ResamplingFunction::Average,
            3,
            start,
            false,
        );
    let result = resampler.resample(current);
    assert_eq!(
        result.len(),
        1,
        "rebuild contract: empty window must yield exactly one sample, got {}",
        result.len(),
    );
    assert!(
        result[0].value.is_none(),
        "rebuild contract: empty window must yield None, got {:?}",
        result[0].value,
    );
    let values: Vec<Option<Single>> = result.iter().map(|s| s.value.map(single)).collect();
    assert_eq!(resampled_value(&values).ok().unwrap(), None);
}

#[test]
fn test_nonpositive_resampling_interval_rejected() {
    for bad in [TimeDelta::zero(), -TimeDelta::try_milliseconds(1).unwrap()] {
        match Actor::try_new(LogicalMeterConfig::new(bad), 0) {
            Err(e) => {
                assert_eq!(e.kind(), ErrorKind::InvalidConfig);
                assert_eq!(
                    e.to_text(),
                    format!("InvalidConfig: resampling_interval must be positive, got {bad:?}")
                );
            }
            Ok(_) => panic!("expected error for interval {bad:?}"),
        }
    }
}

#[test]
fn test_max_age_in_intervals_overflow_rejected() {
    let config = LogicalMeterConfig::new(TimeDelta::try_seconds(1).unwrap())
        .with_max_age_in_intervals(i32::MAX as u32 + 1);
    match Actor::try_new(config, 0) {
        Err(e) => {
            assert_eq!(e.kind(), ErrorKind::InvalidConfig);
            assert_eq!(
                e.to_text(),
                "InvalidConfig: max_age_in_intervals must fit in i32, got 2147483648"
            );
        }
        Ok(_) => panic!("expected error for over-i32::MAX max_age_in_intervals"),
    }
    let config = LogicalMeterConfig::new(TimeDelta::try_seconds(1).unwrap())
        .with_max_age_in_intervals(i32::MAX as u32);
    assert!(Actor::try_new(config, 0).is_ok());
}

#[test]
fn ticks_follow_the_timer_and_its_resyncs() {
    let mut actor = bare_actor_with(LogicalMeterConfig::new(
        TimeDelta::try_milliseconds(1500).unwrap(),
    ));
    let interval = 1_500_000_000;
    assert_eq!(actor.timestamp(), 100 * SECOND - interval);
    let plan = actor.tick(false, 100 * SECOND, 101 * SECOND);
    assert_eq!(plan.rebuild_from, None);
    assert_eq!(plan.timestamp, 100 * SECOND);
    assert_eq!(actor.timestamp(), 100 * SECOND);
    // The clock jumped an hour ahead.
    let next = 3700 * SECOND;
    let plan = actor.tick(true, 101 * SECOND, next);
    assert_eq!(plan.timestamp, next - interval);
    assert_eq!(plan.rebuild_from, Some(next - 2 * interval));
    assert_eq!(actor.timestamp(), next - interval);
}

#[test]
fn equal_formulas_share_an_entry() {
    let mut actor = bare_actor();
    actor.handle_subscribe_formula("#2".to_string(), 1, &vec![active_power_key(2)]);
    actor.handle_subscribe_formula("#3".to_string(), 2, &vec![active_power_key(3)]);
    actor.handle_subscribe_formula("#2".to_string(), 3, &vec![active_power_key(2)]);
    let formulas: Vec<(String, Vec<u64>)> = actor
        .formulas()
        .iter()
        .map(|f| (f.rendered.clone(), f.sinks.clone()))
        .collect();
    assert_eq!(
        formulas,
        vec![
            ("#2".to_string(), vec![1, 3]),
            ("#3".to_string(), vec![2])
        ]
    );
    let keys: Vec<Key> = actor.subscriptions().iter().map(|(k, _)| *k).collect();
    assert_eq!(keys, vec![active_power_key(2), active_power_key(3)]);
}

#[test]
fn a_key_that_is_read_again_starts_to_count_anew() {
    let mut actor = bare_actor();
    let key = active_power_key(2);
    actor.start_missing_subscriptions(&vec![key]);
    actor.reconcile_subscriptions(&vec![]);
    actor.reconcile_subscriptions(&vec![]);
    assert_eq!(actor.subscriptions()[0].1.idle_ticks, 2);
    actor.reconcile_subscriptions(&vec![key]);
    assert_eq!(actor.subscriptions()[0].1.idle_ticks, 0);
    for _ in 0..2 {
        assert!(actor.reconcile_subscriptions(&vec![]).dropped.is_empty());
    }
    assert_eq!(actor.reconcile_subscriptions(&vec![]).dropped, vec![key]);
    assert!(actor.subscriptions().is_empty());
}

#[test]
fn subscriptions_attach_unless_they_are_gone() {
    let mut actor = bare_actor();
    let key = active_power_key(2);
    assert!(matches!(
        actor.subscription_done(key, true),
        SubscriptionAction::Discard
    ));
    actor.start_missing_subscriptions(&vec![key, key]);
    assert!(matches!(
        actor.subscription_done(key, true),
        SubscriptionAction::Attach
    ));
    assert!(actor.subscriptions()[0].1.connected);
    assert!(matches!(
        actor.subscription_done(key, false),
        SubscriptionAction::Forget
    ));
    assert!(actor.subscriptions().is_empty());
}

#[test]
fn resampling_must_give_one_value_per_key() {
    let key = active_power_key(2);
    let other = active_power_key(3);
    let map = resample(&vec![(key, vec![Some(single(4.0))]), (other, vec![None])])
        .ok()
        .unwrap();
    assert_eq!(map.get(key), Some(Some(single(4.0))));
    assert_eq!(map.get(other), Some(None));
    assert_eq!(map.get(active_power_key(4)), None);
    let err = resample(&vec![(key, vec![None]), (other, vec![])]).err().unwrap();
    assert_eq!(
        err.to_text(),
        "ConnectionFailure: Resampling produced 0 values"
    );
    let err = resample(&vec![(key, vec![None, None]), (other, vec![])])
        .err()
        .unwrap();
    assert_eq!(
        err.to_text(),
        "ConnectionFailure: Resampling produced 2 values"
    );
}

fn sample(
    metric: Metric,
    sample_time: Option<Timestamp>,
    value: Option<MetricValueVariant>,
) -> MetricSample {
    MetricSample {
        sample_time,
        metric: Coded::Known(metric),
        value: Some(MetricValue {
            metric_value_variant: value,
        }),
        bounds: vec![],
    }
}

fn telemetry(metric_samples: Vec<MetricSample>) -> ElectricalComponentTelemetry {
    ElectricalComponentTelemetry {
        electrical_component_id: 2,
        metric_samples,
        state_snapshots: vec![],
    }
}

#[test]
fn samples_are_taken_with_their_time_and_value() {
    let time = |seconds, nanos| Some(Timestamp { seconds, nanos });
    let simple = |v| Some(MetricValueVariant::SimpleMetric { value: single(v) });
    let mean = |v| {
        Some(MetricValueVariant::AggregatedMetric {
            avg_value: single(v),
        })
    };
    let power = Metric::AcPowerActive;
    let push = |samples| sample_to_push(active_power_key(2), &telemetry(samples));
    let at = |seconds, nanos, v| Some((UtcTime { seconds, nanos }, single(v)));

    assert_eq!(push(vec![sample(power, time(10, 5), simple(3.0))]), at(10, 5, 3.0));
    assert_eq!(push(vec![sample(power, time(-10, 0), mean(4.0))]), at(-10, 0, 4.0));
    // The first sample of the metric counts, even where it has no value.
    assert_eq!(
        push(vec![
            sample(Metric::DcPower, time(1, 0), simple(1.0)),
            sample(power, time(2, 0), simple(2.0)),
            sample(power, time(3, 0), simple(3.0)),
        ]),
        at(2, 0, 2.0)
    );
    assert_eq!(
        push(vec![
            sample(power, time(2, 0), None),
            sample(power, time(3, 0), simple(3.0)),
        ]),
        None
    );
    assert_eq!(push(vec![sample(Metric::DcPower, time(1, 0), simple(1.0))]), None);
    assert_eq!(push(vec![sample(power, None, simple(1.0))]), None);
    // No calendar shows these times.
    assert_eq!(push(vec![sample(power, time(1, -1), simple(1.0))]), None);
    assert_eq!(push(vec![sample(power, time(i64::MAX, 0), simple(1.0))]), None);
    assert_eq!(
        push(vec![sample(power, time(10, 1_000_000_000), simple(1.0))]),
        None
    );
    // A leap second.
    assert_eq!(
        push(vec![sample(power, time(59, 1_500_000_000), simple(1.0))]),
        at(59, 1_500_000_000, 1.0)
    );
    let mut no_value = sample(power, time(1, 0), None);
    no_value.value = None;
    assert_eq!(push(vec![no_value]), None);
}

#[test]
fn times_have_the_ends_of_the_calendar() {
    let simple = Some(MetricValueVariant::SimpleMetric { value: single(1.0) });
    for (seconds, shown) in [
        (-8_334_601_228_800, true),
        (-8_334_601_228_801, false),
        (8_210_266_876_799, true),
        (8_210_266_876_800, false),
    ] {
        assert_eq!(DateTime::from_timestamp(seconds, 0).is_some(), shown);
        let data = telemetry(vec![sample(
            Metric::AcPowerActive,
            Some(Timestamp { seconds, nanos: 0 }),
            simple,
        )]);
        assert_eq!(
            sample_to_push(active_power_key(2), &data).is_some(),
            shown
        );
    }
}

#[test]
fn polling_goes_past_what_was_missed() {
    assert!(matches!(
        poll_telemetry(Polled::Data(telemetry(vec![]))),
        PollStep::Take(_)
    ));
    assert!(matches!(poll_telemetry(Polled::Lagged), PollStep::Again));
    assert!(matches!(poll_telemetry(Polled::Empty), PollStep::Done));
    assert!(matches!(poll_telemetry(Polled::Closed), PollStep::Done));
}

/// A formula with a fallback reads only its primary source while that delivers,
/// and both once it does not; only what is read stays subscribed.
#[test]
fn only_what_is_read_is_subscribed() {
    let mut actor = bare_actor_with(
        LogicalMeterConfig::new(TimeDelta::try_seconds(1).unwrap())
            .with_unsubscribe_after_intervals(1),
    );
    let formula = active_power("COALESCE(#2, #3)");
    let primary = active_power_key(2);
    let fallback = active_power_key(3);
    let tick = |actor: &mut Actor, readings: &[(Key, Option<f32>)]| {
        let (value, reads) = evaluate(&formula, &snapshot(readings));
        let used = actor.evaluate_formulas(&vec![FormulaOutcome {
            reads,
            alive: vec![true],
        }]);
        actor.reconcile_subscriptions(&used);
        let keys: Vec<Key> = actor.subscriptions().iter().map(|(k, _)| *k).collect();
        (value, keys)
    };
    let (_, reads) = evaluate(&formula, &snapshot(&[]));
    assert_eq!(reads, vec![primary]);
    actor.handle_subscribe_formula("COALESCE(#2, #3)".to_string(), 1, &reads);
    assert_eq!(
        tick(&mut actor, &[(primary, Some(10.0))]),
        (Some(10.0), vec![primary])
    );
    // The primary goes silent: one tick has no value, the next has the
    // fallback's.
    assert_eq!(
        tick(&mut actor, &[(primary, None)]),
        (None, vec![primary, fallback])
    );
    assert_eq!(
        tick(&mut actor, &[(primary, None), (fallback, Some(40.0))]),
        (Some(40.0), vec![primary, fallback])
    );
    // It is back: the fallback is let go.
    assert_eq!(
        tick(&mut actor, &[(primary, Some(11.0)), (fallback, Some(40.0))]),
        (Some(11.0), vec![primary])
    );
}

#[test]
fn the_first_tick_is_the_next_multiple_of_the_interval() {
    assert_eq!(first_tick_after(1_250, 500), 1_500);
    assert_eq!(first_tick_after(1_500, 500), 2_000);
    assert_eq!(first_tick_after(0, 500), 500);
    assert_eq!(first_tick_after(-1_250, 500), -1_000);
    assert_eq!(first_tick_after(-1_500, 500), -1_000);
}

#[test]
fn a_late_tick_keeps_the_cadence() {
    let next = next_tick(1_500, 1_501, 500);
    assert_eq!(next, NextTick { resynced: false, time: 2_000 });
    let next = next_tick(1_500, 1_999, 500);
    assert_eq!(next, NextTick { resynced: false, time: 2_000 });
}

#[test]
fn a_clock_that_jumped_aligns_the_ticks_anew() {
    // Forwards, by three intervals.
    let next = next_tick(1_500, 3_001, 500);
    assert_eq!(next, NextTick { resynced: true, time: 3_500 });
    // Backwards.
    let next = next_tick(1_500, -1_000, 500);
    assert_eq!(next, NextTick { resynced: true, time: -500 });
}

#[test]
fn the_cadence_survives_a_jump_by_whole_intervals() {
    for jump in [1_500, -1_500] {
        // The last tick was at 1000, the next one is due at 1500.
        let next = next_tick(1_500, 1_503 + jump, 500);
        assert!(next.resynced);
        let mut actor = bare_actor_with(LogicalMeterConfig::new(TimeDelta::nanoseconds(500)));
        let plan = actor.tick(next.resynced, 1_500, next.time);
        assert_eq!(plan.timestamp, 1_000 + jump + 500);
        assert_eq!(plan.rebuild_from, Some(1_000 + jump));
    }
}

#[test]
fn stamps_keep_their_cadence_across_jumps() {
    let mut actor = bare_actor_with(LogicalMeterConfig::new(TimeDelta::nanoseconds(500)));
    let mut due = 1_500;
    let mut last = 1_000;
    for (jump, late) in [
        (0, 0),
        (0, 3),
        (30_000, 3),
        (0, 1),
        (0, 499),
        (-30_000, 2),
        (0, 0),
        (-500, 0),
        (0, 4),
    ] {
        let next = next_tick(due, due + jump + late, 500);
        let plan = actor.tick(next.resynced, due, next.time);
        assert_eq!(plan.timestamp, last + jump + 500);
        let rebuild_from = if jump == 0 { None } else { Some(plan.timestamp - 500) };
        assert_eq!(plan.rebuild_from, rebuild_from);
        assert_eq!(actor.timestamp(), plan.timestamp);
        last = plan.timestamp;
        due = next.time;
    }
}

#[test]
fn the_ticks_stay_aligned_after_any_jump() {
    for (jump, stamp) in [(1_700, 3_000), (-1_700, -500), (500, 2_000), (-1_001, 500)] {
        // The last tick was at 1000, the next one is due at 1500.
        let next = next_tick(1_500, 1_503 + jump, 500);
        assert!(next.resynced);
        assert_eq!(next.time - 500, stamp, "{jump}");
        // From there on, the ticks are one interval apart.
        for late in [0, 3, 499] {
            let after = next_tick(next.time, next.time + late, 500);
            assert_eq!(after, NextTick { resynced: false, time: next.time + 500 });
        }
    }
}

#[test]
fn a_failed_subscription_is_tried_again_when_it_is_read() {
    let mut actor = bare_actor();
    let key = active_power_key(2);
    assert_eq!(actor.start_missing_subscriptions(&vec![key]), vec![key]);
    assert_eq!(actor.start_missing_subscriptions(&vec![key]), vec![]);
    assert_eq!(
        actor.subscription_done(key, false),
        SubscriptionAction::Forget
    );
    assert_eq!(
        actor.reconcile_subscriptions(&vec![key]).started,
        vec![key]
    );
}
