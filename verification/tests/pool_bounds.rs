//! The bounds of pools.

use std::collections::BTreeMap;

use frequenz_microgrid::bounds::{
    combine_parallel_sets, from_reported, intersect_bounds_sets, Bounds,
};
use frequenz_microgrid::client::proto::{
    Bounds as PbBounds, Coded, ElectricalComponentTelemetry, Metric as MetricPb, MetricSample,
};
use frequenz_microgrid::metric::{AcPowerActive, DcPower};
use frequenz_microgrid::microgrid::bounds_aggregation::aggregate_parallel;
use frequenz_microgrid::microgrid::pool_bounds::{
    compute_battery_pool_bounds, compute_pv_pool_bounds, compute_steam_boiler_pool_bounds,
};
use frequenz_microgrid::microgrid::telemetry_tracker::battery_pool_telemetry_tracker::{
    BatteryPoolSnapshot, InverterBatteryGroupStatus,
};
use frequenz_microgrid::microgrid::telemetry_tracker::component_partition::ComponentHealthPartition;
use frequenz_microgrid::microgrid::telemetry_tracker::inverter_battery_group::InverterBatteryGroup;
use frequenz_microgrid::microgrid::telemetry_tracker::pool_snapshots::{
    PvPoolSnapshot, SteamBoilerPoolSnapshot,
};
use frequenz_microgrid::single::Single;

fn single(value: f32) -> Single {
    Single::from_bits(value.to_bits())
}

fn plus(a: Single, b: Single) -> Single {
    single(f32::from_bits(a.to_bits()) + f32::from_bits(b.to_bits()))
}

fn bounds(lower: f32, upper: f32) -> Bounds {
    Bounds::new(Some(single(lower)), Some(single(upper)))
}

fn telem_with_bounds(
    id: u64,
    metric: MetricPb,
    bounds: Vec<(Option<f32>, Option<f32>)>,
) -> ElectricalComponentTelemetry {
    ElectricalComponentTelemetry {
        electrical_component_id: id,
        metric_samples: vec![MetricSample {
            sample_time: None,
            metric: Coded::Known(metric),
            value: None,
            bounds: bounds
                .into_iter()
                .map(|(lower, upper)| PbBounds {
                    lower: lower.map(single),
                    upper: upper.map(single),
                })
                .collect(),
        }],
        state_snapshots: vec![],
    }
}

fn telem_with_power_bounds(
    id: u64,
    bounds: Vec<(Option<f32>, Option<f32>)>,
) -> ElectricalComponentTelemetry {
    telem_with_bounds(id, MetricPb::AcPowerActive, bounds)
}

fn by_id(
    telemetry: Vec<ElectricalComponentTelemetry>,
) -> BTreeMap<u64, ElectricalComponentTelemetry> {
    telemetry
        .into_iter()
        .map(|t| (t.electrical_component_id, t))
        .collect()
}

fn healthy(telemetry: Vec<ElectricalComponentTelemetry>) -> ComponentHealthPartition {
    ComponentHealthPartition {
        healthy: by_id(telemetry),
        unhealthy: BTreeMap::new(),
    }
}

fn pv_snapshot(telemetry: Vec<ElectricalComponentTelemetry>) -> PvPoolSnapshot {
    PvPoolSnapshot {
        inverters: healthy(telemetry),
    }
}

#[test]
fn single_inverter_uses_its_bounds() {
    let snap = pv_snapshot(vec![telem_with_power_bounds(
        10,
        vec![(Some(-1000.0), Some(0.0))],
    )]);
    assert_eq!(
        compute_pv_pool_bounds::<AcPowerActive, _>(&snap, &plus),
        vec![bounds(-1000.0, 0.0)]
    );
}

#[test]
fn parallel_inverters_add() {
    let snap = pv_snapshot(vec![
        telem_with_power_bounds(10, vec![(Some(-1000.0), Some(0.0))]),
        telem_with_power_bounds(11, vec![(Some(-2000.0), Some(0.0))]),
    ]);
    assert_eq!(
        compute_pv_pool_bounds::<AcPowerActive, _>(&snap, &plus),
        vec![bounds(-3000.0, 0.0)]
    );
}

#[test]
fn empty_pool_yields_empty_bounds() {
    let snap = pv_snapshot(vec![]);
    assert!(compute_pv_pool_bounds::<AcPowerActive, _>(&snap, &plus).is_empty());
}

#[test]
fn pool_bounds_empty_pool_yields_empty_bounds() {
    let snapshot = status(vec![]);
    assert!(
        compute_battery_pool_bounds::<AcPowerActive, AcPowerActive, _>(&snapshot, &plus).is_empty()
    );
}

#[test]
fn unhealthy_inverters_are_excluded() {
    let snap = PvPoolSnapshot {
        inverters: ComponentHealthPartition {
            healthy: by_id(vec![telem_with_power_bounds(
                10,
                vec![(Some(-1000.0), Some(0.0))],
            )]),
            unhealthy: [(
                11,
                Some(telem_with_power_bounds(
                    11,
                    vec![(Some(-9000.0), Some(0.0))],
                )),
            )]
            .into(),
        },
    };
    assert_eq!(
        compute_pv_pool_bounds::<AcPowerActive, _>(&snap, &plus),
        vec![bounds(-1000.0, 0.0)]
    );
}

#[test]
fn inverter_without_matching_metric_contributes_nothing() {
    let snap = pv_snapshot(vec![telem_with_bounds(
        10,
        MetricPb::AcVoltage,
        vec![(Some(0.0), Some(1.0))],
    )]);
    assert!(compute_pv_pool_bounds::<AcPowerActive, _>(&snap, &plus).is_empty());
}

#[test]
fn parallel_boilers_add() {
    let snap = SteamBoilerPoolSnapshot {
        boilers: healthy(vec![
            telem_with_power_bounds(10, vec![(Some(0.0), Some(1000.0))]),
            telem_with_power_bounds(11, vec![(Some(0.0), Some(2000.0))]),
        ]),
    };
    assert_eq!(
        compute_steam_boiler_pool_bounds::<AcPowerActive, _>(&snap, &plus),
        vec![bounds(0.0, 3000.0)]
    );
}

#[test]
fn unhealthy_boilers_are_excluded() {
    let snap = SteamBoilerPoolSnapshot {
        boilers: ComponentHealthPartition {
            healthy: by_id(vec![telem_with_power_bounds(
                10,
                vec![(Some(0.0), Some(1000.0))],
            )]),
            unhealthy: [(
                11,
                Some(telem_with_power_bounds(11, vec![(Some(0.0), Some(9000.0))])),
            )]
            .into(),
        },
    };
    assert_eq!(
        compute_steam_boiler_pool_bounds::<AcPowerActive, _>(&snap, &plus),
        vec![bounds(0.0, 1000.0)]
    );
}

fn group(inverter_ids: &[u64], battery_ids: &[u64]) -> InverterBatteryGroup {
    InverterBatteryGroup::new(
        inverter_ids.iter().copied().collect(),
        battery_ids.iter().copied().collect(),
    )
}

fn status(
    groups: Vec<(InverterBatteryGroup, InverterBatteryGroupStatus)>,
) -> BatteryPoolSnapshot {
    let mut snapshot = BatteryPoolSnapshot::new();
    for (group, status) in groups {
        snapshot.insert(group, status);
    }
    snapshot
}

fn parted(
    inverters: Vec<ElectricalComponentTelemetry>,
    batteries: Vec<ElectricalComponentTelemetry>,
) -> InverterBatteryGroupStatus {
    InverterBatteryGroupStatus {
        inverters: healthy(inverters),
        batteries: healthy(batteries),
    }
}

fn pool_bounds(snapshot: &BatteryPoolSnapshot) -> Vec<Bounds> {
    compute_battery_pool_bounds::<AcPowerActive, AcPowerActive, _>(snapshot, &plus)
}

#[test]
fn single_group_intersects_inverter_and_battery_bounds() {
    let snapshot = status(vec![(
        group(&[10], &[20]),
        parted(
            vec![telem_with_power_bounds(
                10,
                vec![(Some(-1000.0), Some(-200.0)), (Some(200.0), Some(1000.0))],
            )],
            vec![telem_with_power_bounds(
                20,
                vec![(Some(-500.0), Some(800.0))],
            )],
        ),
    )]);
    assert_eq!(
        pool_bounds(&snapshot),
        vec![bounds(-500.0, -200.0), bounds(200.0, 800.0)]
    );
}

#[test]
fn parallel_inverters_add_within_group() {
    let snapshot = status(vec![(
        group(&[10, 11], &[20]),
        parted(
            vec![
                telem_with_power_bounds(10, vec![(Some(-1000.0), Some(1000.0))]),
                telem_with_power_bounds(11, vec![(Some(-2000.0), Some(2000.0))]),
            ],
            vec![telem_with_power_bounds(
                20,
                vec![(Some(-10_000.0), Some(10_000.0))],
            )],
        ),
    )]);
    assert_eq!(pool_bounds(&snapshot), vec![bounds(-3000.0, 3000.0)]);
}

#[test]
fn multiple_groups_add_across_pool() {
    let snapshot = status(vec![
        (
            group(&[10], &[20]),
            parted(
                vec![telem_with_power_bounds(
                    10,
                    vec![(Some(-1000.0), Some(1000.0))],
                )],
                vec![telem_with_power_bounds(
                    20,
                    vec![(Some(-1000.0), Some(1000.0))],
                )],
            ),
        ),
        (
            group(&[11], &[21]),
            parted(
                vec![telem_with_power_bounds(
                    11,
                    vec![(Some(-500.0), Some(500.0))],
                )],
                vec![telem_with_power_bounds(
                    21,
                    vec![(Some(-500.0), Some(500.0))],
                )],
            ),
        ),
    ]);
    assert_eq!(pool_bounds(&snapshot), vec![bounds(-1500.0, 1500.0)]);
}

#[test]
fn missing_inverter_bounds_yields_no_group_bounds() {
    let snapshot = status(vec![(
        group(&[10], &[20]),
        parted(
            vec![telem_with_power_bounds(10, vec![])],
            vec![telem_with_power_bounds(
                20,
                vec![(Some(-500.0), Some(500.0))],
            )],
        ),
    )]);
    assert!(
        pool_bounds(&snapshot).is_empty(),
        "group with no inverter bounds must not contribute any bounds"
    );
}

#[test]
fn missing_battery_bounds_yields_no_group_bounds() {
    let snapshot = status(vec![(
        group(&[10], &[20]),
        parted(
            vec![telem_with_power_bounds(
                10,
                vec![(Some(-1000.0), Some(1000.0))],
            )],
            vec![telem_with_power_bounds(20, vec![])],
        ),
    )]);
    assert!(
        pool_bounds(&snapshot).is_empty(),
        "group with no battery bounds must not contribute any bounds"
    );
}

#[test]
fn no_healthy_inverters_yields_no_group_bounds() {
    let snapshot = status(vec![(
        group(&[10], &[20]),
        InverterBatteryGroupStatus {
            inverters: ComponentHealthPartition {
                healthy: BTreeMap::new(),
                unhealthy: [(10, None)].into(),
            },
            batteries: healthy(vec![telem_with_power_bounds(
                20,
                vec![(Some(-500.0), Some(500.0))],
            )]),
        },
    )]);
    assert!(
        pool_bounds(&snapshot).is_empty(),
        "group with no healthy inverters must not contribute any bounds"
    );
}

#[test]
fn no_healthy_batteries_yields_no_group_bounds() {
    let snapshot = status(vec![(
        group(&[10], &[20]),
        InverterBatteryGroupStatus {
            inverters: healthy(vec![telem_with_power_bounds(
                10,
                vec![(Some(-1000.0), Some(1000.0))],
            )]),
            batteries: ComponentHealthPartition {
                healthy: BTreeMap::new(),
                unhealthy: [(20, None)].into(),
            },
        },
    )]);
    assert!(
        pool_bounds(&snapshot).is_empty(),
        "group with no healthy batteries must not contribute any bounds"
    );
}

#[test]
fn group_without_matching_metric_contributes_nothing() {
    let snapshot = status(vec![(
        group(&[10], &[20]),
        parted(
            vec![telem_with_bounds(
                10,
                MetricPb::AcVoltage,
                vec![(Some(0.0), Some(1.0))],
            )],
            vec![telem_with_power_bounds(
                20,
                vec![(Some(-100.0), Some(100.0))],
            )],
        ),
    )]);
    assert!(pool_bounds(&snapshot).is_empty());
}

#[test]
fn batteries_are_read_by_their_own_metric() {
    let snapshot = status(vec![(
        group(&[10], &[20]),
        parted(
            vec![telem_with_power_bounds(
                10,
                vec![(Some(-1000.0), Some(1000.0))],
            )],
            vec![telem_with_bounds(
                20,
                MetricPb::DcPower,
                vec![(Some(-400.0), Some(300.0))],
            )],
        ),
    )]);
    assert_eq!(
        compute_battery_pool_bounds::<AcPowerActive, DcPower, _>(&snapshot, &plus),
        vec![bounds(-400.0, 300.0)]
    );
    assert!(pool_bounds(&snapshot).is_empty());
}

#[test]
fn a_group_that_gives_nothing_leaves_the_others() {
    let working = parted(
        vec![telem_with_power_bounds(10, vec![(Some(-5.0), Some(5.0))])],
        vec![telem_with_power_bounds(20, vec![(Some(-4.0), Some(9.0))])],
    );
    let silent = InverterBatteryGroupStatus::unheard(&group(&[11], &[21]));
    let snapshot = status(vec![
        (group(&[11], &[21]), silent),
        (group(&[10], &[20]), working),
    ]);
    assert_eq!(pool_bounds(&snapshot), vec![bounds(-4.0, 5.0)]);
}

#[test]
fn bounds_share_what_both_allow() {
    let open = Bounds::new(None, Some(single(3.0)));
    assert_eq!(
        open.intersect(&bounds(-1.0, 5.0)),
        Some(bounds(-1.0, 3.0))
    );
    assert_eq!(bounds(0.0, 1.0).intersect(&bounds(2.0, 3.0)), None);
    // They meet in one point.
    assert_eq!(
        bounds(0.0, 2.0).intersect(&bounds(2.0, 3.0)),
        Some(bounds(2.0, 2.0))
    );
    let reported = from_reported(&PbBounds {
        lower: None,
        upper: Some(single(3.0)),
    });
    assert_eq!(reported, open);
    assert_eq!(reported.lower(), None);
    assert_eq!(reported.upper(), Some(single(3.0)));
}

#[test]
fn sets_in_series_pair_up() {
    assert_eq!(
        intersect_bounds_sets(
            &vec![bounds(0.0, 10.0), bounds(20.0, 30.0)],
            &vec![bounds(5.0, 25.0)]
        ),
        vec![bounds(5.0, 10.0), bounds(20.0, 25.0)]
    );
    assert!(intersect_bounds_sets(&vec![], &vec![bounds(5.0, 25.0)]).is_empty());
}

#[test]
fn sets_in_parallel_add_up() {
    // One side alone counts as it is.
    assert_eq!(
        combine_parallel_sets(&vec![], &vec![bounds(1.0, 2.0)], &plus),
        vec![bounds(1.0, 2.0)]
    );
    assert_eq!(
        combine_parallel_sets(&vec![bounds(1.0, 2.0)], &vec![], &plus),
        vec![bounds(1.0, 2.0)]
    );
    // An end that is open stays open.
    assert_eq!(
        combine_parallel_sets(
            &vec![Bounds::new(None, Some(single(1.0)))],
            &vec![bounds(2.0, 3.0)],
            &plus
        ),
        vec![Bounds::new(None, Some(single(4.0)))]
    );
}

#[test]
fn aggregation_reads_the_first_sample_of_the_metric() {
    let mut telemetry = telem_with_power_bounds(10, vec![(Some(-1.0), Some(1.0))]);
    let second = telem_with_power_bounds(10, vec![(Some(-9.0), Some(9.0))]);
    telemetry.metric_samples.extend(second.metric_samples);
    assert_eq!(
        aggregate_parallel::<AcPowerActive, _>(&by_id(vec![telemetry]), &plus),
        vec![bounds(-1.0, 1.0)]
    );
}

#[test]
fn bounds_are_their_ends() {
    for (lower, upper) in [
        (None, None),
        (Some(single(-1.5)), None),
        (None, Some(single(2.0))),
        (Some(single(3.0)), Some(single(1.0))),
    ] {
        let bounds = Bounds::new(lower, upper);
        assert_eq!((bounds.lower(), bounds.upper()), (lower, upper));
        assert_eq!(bounds, Bounds::new(bounds.lower(), bounds.upper()));
    }
}
