//! Pools of components.

use std::collections::{BTreeSet, HashMap};

use frequenz_microgrid_component_graph::ComponentGraphConfig;
use frequenz_microgrid_formula_engine as engine;

use frequenz_microgrid::bounds::Bounds;
use frequenz_microgrid::client::proto::{
    Bounds as PbBounds, CategorySpecificKind, Coded, ElectricalComponent, ElectricalComponentCategory,
    ElectricalComponentCategorySpecificInfo, ElectricalComponentConnection,
    ElectricalComponentOperationalMode, ElectricalComponentStateCode,
    ElectricalComponentStateSnapshot, ElectricalComponentTelemetry, InverterType,
    Metric as MetricPb, MetricSample,
};
use frequenz_microgrid::component_graph::ComponentGraph;
use frequenz_microgrid::error::ErrorKind;
use frequenz_microgrid::logical_meter::expr::Expr;
use frequenz_microgrid::logical_meter::formula::graph_formula::AggregationFormula;
use frequenz_microgrid::logical_meter::formula::Formula;
use frequenz_microgrid::logical_meter::logical_meter_handle::{
    build_component_graph, graph_formula, GraphRequest, LogicalMeterHandle,
};
use frequenz_microgrid::metric::AcPowerActive;
use frequenz_microgrid::microgrid::battery_pool::BatteryPool;
use frequenz_microgrid::microgrid::battery_pool_formulas::{PoolKey, Source};
use frequenz_microgrid::microgrid::latest::Latest;
use frequenz_microgrid::microgrid::pool_bounds::{
    compute_battery_pool_bounds, compute_pv_pool_bounds,
};
use frequenz_microgrid::microgrid::pool_tracking::{
    bounds_step, can_reuse, BoundsStep, SnapshotNews, TrackerStep,
};
use frequenz_microgrid::microgrid::pool_validation::{all_ids, PoolKind};
use frequenz_microgrid::microgrid::pv_pool::PvPool;
use frequenz_microgrid::microgrid::steam_boiler_pool::SteamBoilerPool;
use frequenz_microgrid::microgrid::telemetry_tracker::battery_pool_telemetry_tracker::{
    BatteryPoolSnapshot, BatteryPoolTelemetryTracker, InverterBatteryGroupStatus, PoolAction,
    PoolEvent,
};
use frequenz_microgrid::microgrid::telemetry_tracker::component_pool_telemetry_tracker::{
    ComponentPoolEvent, ComponentPoolTelemetryTracker,
};
use frequenz_microgrid::microgrid::telemetry_tracker::component_telemetry_tracker::{
    ComponentHealthStatus, ComponentTelemetryTracker, TrackerAction, TrackerEvent,
};
use frequenz_microgrid::microgrid::telemetry_tracker::inverter_battery_group::{
    inverter_battery_groups, InverterBatteryGroup,
};
use frequenz_microgrid::microgrid::telemetry_tracker::pool_snapshots::{
    PvPoolSnapshot, SteamBoilerPoolSnapshot,
};
use frequenz_microgrid::quantity::Quantity;
use frequenz_microgrid::single::Single;

fn single(value: f32) -> Single {
    Single::from_bits(value.to_bits())
}

fn to_single<K>(formula: engine::Formula<f32, K>) -> Expr<K> {
    match formula {
        engine::Formula::Constant(value) => engine::Formula::Constant(value.map(single)),
        engine::Formula::Neg(inner) => engine::Formula::Neg(Box::new(to_single(*inner))),
        engine::Formula::Sum { first, rest } => engine::Formula::Sum {
            first: Box::new(to_single(*first)),
            rest: rest.into_iter().map(|(op, e)| (op, to_single(e))).collect(),
        },
        engine::Formula::Product { first, rest } => engine::Formula::Product {
            first: Box::new(to_single(*first)),
            rest: rest.into_iter().map(|(op, e)| (op, to_single(e))).collect(),
        },
        engine::Formula::Function { function, args } => engine::Formula::Function {
            function,
            args: args.into_iter().map(to_single).collect(),
        },
        engine::Formula::Component(key) => engine::Formula::Component(key),
    }
}

fn to_float<K: Clone>(expr: &Expr<K>) -> engine::Formula<f32, K> {
    match expr {
        engine::Formula::Constant(value) => {
            engine::Formula::Constant(value.map(|v| f32::from_bits(v.to_bits())))
        }
        engine::Formula::Neg(inner) => engine::Formula::Neg(Box::new(to_float(inner))),
        engine::Formula::Sum { first, rest } => engine::Formula::Sum {
            first: Box::new(to_float(first)),
            rest: rest.iter().map(|(op, e)| (*op, to_float(e))).collect(),
        },
        engine::Formula::Product { first, rest } => engine::Formula::Product {
            first: Box::new(to_float(first)),
            rest: rest.iter().map(|(op, e)| (*op, to_float(e))).collect(),
        },
        engine::Formula::Function { function, args } => engine::Formula::Function {
            function: *function,
            args: args.iter().map(to_float).collect(),
        },
        engine::Formula::Component(key) => engine::Formula::Component(key.clone()),
    }
}

fn parse(text: String) -> Result<Expr<u64>, String> {
    text.parse::<engine::Formula<f32>>()
        .map(to_single)
        .map_err(|e| e.to_string())
}

fn shown<Q: Quantity>(formula: &Formula<Q>) -> String {
    to_float(formula.expr())
        .map_components(|key| key.to_text())
        .to_string()
}

#[derive(Clone)]
struct Mock {
    component: ElectricalComponent,
    children: Vec<Mock>,
}

impl Mock {
    fn of(id: u64, category: ElectricalComponentCategory) -> Mock {
        Mock {
            component: ElectricalComponent {
                id,
                category: Coded::Known(category),
                category_specific_info: None,
                operational_mode: Coded::Known(ElectricalComponentOperationalMode::Unspecified),
            },
            children: vec![],
        }
    }

    fn grid(id: u64) -> Mock {
        Mock::of(id, ElectricalComponentCategory::GridConnectionPoint)
    }

    fn meter(id: u64) -> Mock {
        Mock::of(id, ElectricalComponentCategory::Meter)
    }

    fn inverter(id: u64, inverter_type: InverterType) -> Mock {
        let mut mock = Mock::of(id, ElectricalComponentCategory::Inverter);
        mock.component.category_specific_info = Some(ElectricalComponentCategorySpecificInfo {
            kind: Some(CategorySpecificKind::Inverter(Coded::Known(inverter_type))),
        });
        mock
    }

    fn pv_inverter(id: u64) -> Mock {
        Mock::inverter(id, InverterType::Pv)
    }

    fn battery_inverter(id: u64) -> Mock {
        Mock::inverter(id, InverterType::Battery)
    }

    fn battery(id: u64) -> Mock {
        Mock::of(id, ElectricalComponentCategory::Battery)
    }

    fn with_children(mut self, children: Vec<Mock>) -> Mock {
        self.children = children;
        self
    }

    fn flatten(
        &self,
        components: &mut Vec<ElectricalComponent>,
        connections: &mut Vec<ElectricalComponentConnection>,
    ) {
        components.push(self.component);
        for child in &self.children {
            connections.push(ElectricalComponentConnection {
                source_electrical_component_id: self.component.id,
                destination_electrical_component_id: child.component.id,
            });
            child.flatten(components, connections);
        }
    }

    fn graph(&self) -> ComponentGraph {
        let mut components = vec![];
        let mut connections = vec![];
        self.flatten(&mut components, &mut connections);
        build_component_graph(
            Ok(components),
            Ok(connections),
            ComponentGraphConfig::default(),
        )
        .unwrap()
    }
}


fn plus(a: Single, b: Single) -> Single {
    single(f32::from_bits(a.to_bits()) + f32::from_bits(b.to_bits()))
}

fn ids(list: &[u64]) -> BTreeSet<u64> {
    list.iter().copied().collect()
}

/// grid -> meter, with nothing behind it.
fn bare_graph() -> Mock {
    Mock::grid(1).with_children(vec![Mock::meter(2)])
}

#[test]
fn try_new_none_constructs_an_empty_pool_without_batteries() {
    let graph = bare_graph().graph();
    let pool = BatteryPool::try_new(None, &graph)
        .ok()
        .expect("a battery-less microgrid should yield an empty pool");
    assert!(pool.groups().is_empty());
    let lm = LogicalMeterHandle::new(graph);
    pool.power::<Single, _>(&lm, &parse)
        .ok()
        .expect("empty pool power formula");
}

#[test]
fn battery_pool_empty_pool_emits_empty_snapshot_and_bounds() {
    let graph = bare_graph().graph();
    let pool = BatteryPool::try_new(None, &graph).ok().unwrap();
    let mut tracker = BatteryPoolTelemetryTracker::new(pool.groups());
    assert!(tracker.is_empty_pool());
    assert!(
        tracker.snapshot().groups().is_empty(),
        "empty pool snapshot should have no groups"
    );
    assert!(
        compute_battery_pool_bounds::<AcPowerActive, AcPowerActive, _>(tracker.snapshot(), &plus)
            .is_empty(),
        "empty pool should have empty power bounds"
    );
    // It goes on while somebody listens.
    assert!(matches!(
        tracker.handle(PoolEvent::Tick { receivers: 1 }),
        PoolAction::PublishIfChanged
    ));
    assert!(matches!(
        tracker.handle(PoolEvent::Tick { receivers: 0 }),
        PoolAction::Stop
    ));
}

/// grid -> meter -> battery_inverter(3) -> [battery(4), battery(5)]
fn shared_inverter_graph() -> ComponentGraph {
    Mock::grid(1)
        .with_children(vec![Mock::meter(2).with_children(vec![
            Mock::battery_inverter(3).with_children(vec![Mock::battery(4), Mock::battery(5)])
        ])])
        .graph()
}

#[test]
fn try_new_rejects_partial_inverter_battery_group() {
    let graph = shared_inverter_graph();
    let err = BatteryPool::try_new(Some(ids(&[4])), &graph)
        .err()
        .expect("a partial inverter-battery group must be rejected");
    assert_eq!(err.kind(), ErrorKind::ComponentDataError);
    assert_eq!(
        err.to_text(),
        "ComponentDataError: Inverters {3} are connected to batteries {4, 5} which are not all in \
         the requested component IDs {4}"
    );
}

#[test]
fn battery_pools_reject_what_is_no_battery() {
    let graph = shared_inverter_graph();
    for bad in [ids(&[3, 4, 5]), ids(&[99])] {
        let err = BatteryPool::try_new(Some(bad), &graph).err().unwrap();
        assert_eq!(err.kind(), ErrorKind::InvalidComponent);
        assert!(err.to_text().contains("must be batteries"));
    }
}

fn to_pool_float(expr: &Expr<PoolKey>) -> engine::Formula<f32, PoolKey> {
    to_float(expr)
}

#[test]
fn capacity_sums_the_usable_capacity_of_healthy_batteries() {
    let graph = shared_inverter_graph();
    let pool = BatteryPool::try_new(None, &graph).ok().unwrap();
    let key = |component_id, source| PoolKey {
        component_id,
        source,
    };
    let soc = MetricPb::BatterySocPct;
    let readings = |inverter: Option<f32>| -> HashMap<PoolKey, Option<f32>> {
        [
            (key(3, Source::Health), inverter),
            (key(4, Source::Value(MetricPb::BatteryCapacity)), Some(1000.0)),
            (key(4, Source::LowerBound(soc)), Some(10.0)),
            (key(4, Source::UpperBound(soc)), Some(90.0)),
            (key(4, Source::Value(soc)), Some(50.0)),
            (key(5, Source::Value(MetricPb::BatteryCapacity)), Some(2000.0)),
            (key(5, Source::LowerBound(soc)), Some(20.0)),
            (key(5, Source::UpperBound(soc)), Some(100.0)),
            (key(5, Source::Value(soc)), Some(100.0)),
        ]
        .into()
    };
    let evaluate = |expr: &Expr<PoolKey>, mut values: HashMap<PoolKey, Option<f32>>| {
        match to_pool_float(expr).evaluate(&mut values).unwrap() {
            engine::Reading::Known(value) => value,
            engine::Reading::Unknown => panic!("every leaf must have a reading"),
        }
    };
    assert_eq!(
        evaluate(&pool.capacity(), readings(Some(1.0))),
        Some(800.0 + 1600.0)
    );
    assert_eq!(evaluate(&pool.capacity(), readings(None)), None);
    // (800 * 50 + 1600 * 100) / 2400
    let soc = evaluate(&pool.soc(), readings(Some(1.0))).unwrap();
    assert!((soc - 83.333336).abs() < 1e-3, "{soc}");
}

/// grid -> meter -> [pv meter -> pv_inverter(4), pv_inverter(5)],
///                  [battery meter -> battery_inverter(7) -> battery(8)]
fn pv_graph() -> ComponentGraph {
    Mock::grid(1)
        .with_children(vec![Mock::meter(2).with_children(vec![
            Mock::meter(3).with_children(vec![Mock::pv_inverter(4), Mock::pv_inverter(5)]),
            Mock::meter(6)
                .with_children(vec![Mock::battery_inverter(7).with_children(vec![Mock::battery(8)])]),
        ])])
        .graph()
}

#[test]
fn pv_pool_try_new_accepts_empty_component_ids() {
    let graph = pv_graph();
    let pool = PvPool::try_new(Some(BTreeSet::new()), &graph)
        .ok()
        .expect("an empty component_ids set should yield an empty pool");
    assert!(pool.get_pv_inverter_ids(&graph).is_empty());
    pool.power::<Single, _>(&LogicalMeterHandle::new(graph), &parse)
        .ok()
        .expect("empty pool power formula");
}

#[test]
fn pv_pool_empty_pool_emits_empty_snapshot_and_bounds() {
    let graph = bare_graph().graph();
    let pool = PvPool::try_new(None, &graph).ok().unwrap();
    let snapshot = PvPoolSnapshot::unheard(&pool.get_pv_inverter_ids(&graph));
    assert!(
        snapshot.inverters.healthy.is_empty() && snapshot.inverters.unhealthy.is_empty(),
        "empty pool snapshot should have no inverters"
    );
    assert!(
        compute_pv_pool_bounds::<AcPowerActive, _>(&snapshot, &plus).is_empty(),
        "empty pool should have empty power bounds"
    );
}

#[test]
fn pools_start_with_every_member_unheard() {
    let graph = pv_graph();
    let pool = PvPool::try_new(None, &graph).ok().unwrap();
    let snapshot = PvPoolSnapshot::unheard(&pool.get_pv_inverter_ids(&graph));
    assert_eq!(snapshot.inverters.unhealthy, [(4, None), (5, None)].into());
    let boilers = SteamBoilerPoolSnapshot::unheard(&ids(&[9]));
    assert_eq!(boilers.boilers.unhealthy, [(9, None)].into());
    assert!(boilers.boilers.healthy.is_empty());
}

#[test]
fn try_new_rejects_non_pv_component_ids() {
    // 7 is a battery inverter and 8 a battery: neither is a PV inverter.
    let err = PvPool::try_new(Some(ids(&[4, 7, 8])), &pv_graph())
        .err()
        .expect("non-PV component_ids should be rejected");
    assert!(
        err.to_text().contains("must be PV inverters"),
        "unexpected error: {}",
        err.to_text()
    );
    assert_eq!(
        err.to_text(),
        "InvalidComponent: Component IDs {4, 7, 8} must be PV inverters."
    );
}

const ALL_PV: &str = "COALESCE(#5:AC_POWER_ACTIVE + #4:AC_POWER_ACTIVE, #3:AC_POWER_ACTIVE, \
                      COALESCE(#5:AC_POWER_ACTIVE, 0) + COALESCE(#4:AC_POWER_ACTIVE, 0))";

fn pv_power(selection: Option<BTreeSet<u64>>) -> String {
    let graph = pv_graph();
    let pool = PvPool::try_new(selection, &graph).ok().unwrap();
    let lm = LogicalMeterHandle::new(graph);
    shown(&pool.power::<Single, _>(&lm, &parse).ok().unwrap())
}

#[test]
fn power_formula_for_explicit_pv_inverters() {
    assert_eq!(pv_power(Some(ids(&[4, 5]))), ALL_PV);
}

#[test]
fn power_formula_for_all_pv_inverters() {
    assert_eq!(pv_power(None), ALL_PV);
}

#[test]
fn trackers_are_reused_while_somebody_listens() {
    let graph = pv_graph();
    let pool = PvPool::try_new(None, &graph).ok().unwrap();
    assert!(matches!(
        pool.telemetry_snapshots(Some(1), &graph),
        TrackerStep::Reuse
    ));
    assert!(can_reuse(Some(3)));
    for gone in [None, Some(0)] {
        assert!(!can_reuse(gone));
        match pool.telemetry_snapshots(gone, &graph) {
            TrackerStep::Start(plan) => {
                assert_eq!(plan.component_ids, ids(&[4, 5]));
                assert_eq!(plan.missing_data_tolerance_secs, 10);
                assert_eq!(
                    plan.healthy_state_codes,
                    vec![
                        ElectricalComponentStateCode::Ready,
                        ElectricalComponentStateCode::Standby,
                        ElectricalComponentStateCode::Discharging,
                    ]
                );
            }
            TrackerStep::Reuse => panic!("a tracker that stopped cannot be reused"),
        }
    }
    assert_eq!(pool.bounds_label(), "AcPowerActive PV");

    let pool = BatteryPool::try_new(None, &graph).ok().unwrap();
    assert!(matches!(
        pool.telemetry_snapshots(Some(2)),
        TrackerStep::Reuse
    ));
    match pool.telemetry_snapshots(None) {
        TrackerStep::Start(plan) => {
            assert_eq!(plan.component_ids, ids(&[8]));
            assert_eq!(plan.missing_data_tolerance_secs, 10);
            assert_eq!(
                plan.healthy_state_codes,
                vec![
                    ElectricalComponentStateCode::Ready,
                    ElectricalComponentStateCode::Standby,
                    ElectricalComponentStateCode::Charging,
                    ElectricalComponentStateCode::Discharging,
                    ElectricalComponentStateCode::RelayClosed,
                ]
            );
        }
        TrackerStep::Reuse => panic!("no tracker was started"),
    }
    assert_eq!(pool.bounds_label(), "AcPowerActive/DcPower");

    let graph = boiler_graph();
    let pool = SteamBoilerPool::try_new(Some(ids(&[5])), &graph).ok().unwrap();
    assert!(matches!(
        pool.telemetry_snapshots(Some(1), &graph),
        TrackerStep::Reuse
    ));
    match pool.telemetry_snapshots(Some(0), &graph) {
        TrackerStep::Start(plan) => {
            assert_eq!(plan.component_ids, ids(&[5]));
            assert_eq!(plan.missing_data_tolerance_secs, 10);
            assert_eq!(
                plan.healthy_state_codes,
                vec![
                    ElectricalComponentStateCode::Ready,
                    ElectricalComponentStateCode::Standby,
                    ElectricalComponentStateCode::Discharging,
                ]
            );
        }
        TrackerStep::Reuse => panic!("a tracker that stopped cannot be reused"),
    }
    assert_eq!(pool.get_steam_boiler_ids(&graph), ids(&[5]));
    assert_eq!(pool.bounds_label(), "AcPowerActive steam boiler");
}

/// grid -> meter -> [boiler meter -> steam_boiler(4), steam_boiler(5)],
///                  [chp meter -> chp(7)]
fn boiler_graph() -> ComponentGraph {
    let boiler = |id| Mock::of(id, ElectricalComponentCategory::SteamBoiler);
    Mock::grid(1)
        .with_children(vec![Mock::meter(2).with_children(vec![
            Mock::meter(3).with_children(vec![boiler(4), boiler(5)]),
            Mock::meter(6).with_children(vec![Mock::of(7, ElectricalComponentCategory::Chp)]),
        ])])
        .graph()
}

#[test]
fn steam_boiler_pool_try_new_accepts_empty_component_ids() {
    let graph = boiler_graph();
    let pool = SteamBoilerPool::try_new(Some(BTreeSet::new()), &graph)
        .ok()
        .expect("an empty component_ids set should yield an empty pool");
    pool.power::<Single, _>(&LogicalMeterHandle::new(graph), &parse)
        .ok()
        .expect("empty pool power formula");
}

#[test]
fn try_new_rejects_non_steam_boiler_component_ids() {
    // 7 is a CHP: a valid component, but not a steam boiler.
    let err = SteamBoilerPool::try_new(Some(ids(&[7])), &boiler_graph())
        .err()
        .expect("a CHP ID should be rejected");
    assert!(
        err.to_text().contains("must be steam boilers"),
        "unexpected error: {}",
        err.to_text()
    );
}

#[test]
fn try_new_rejects_unknown_component_ids() {
    // 99 is not in the graph at all.
    let err = SteamBoilerPool::try_new(Some(ids(&[4, 99])), &boiler_graph())
        .err()
        .expect("an unknown ID should be rejected");
    assert!(
        err.to_text().contains("must be steam boilers"),
        "unexpected error: {}",
        err.to_text()
    );
}

fn boiler_power(selection: Option<BTreeSet<u64>>) -> String {
    let graph = boiler_graph();
    let pool = SteamBoilerPool::try_new(selection.clone(), &graph).ok().unwrap();
    let text = graph_formula::<AcPowerActive>(&graph, GraphRequest::SteamBoiler(selection))
        .ok()
        .unwrap();
    let lm = LogicalMeterHandle::new(graph);
    let formula = pool.power::<Single, _>(&lm, &parse).ok().unwrap();
    assert_eq!(
        to_float(formula.expr()).map_components(|key| key.component_id),
        text.parse::<engine::Formula<f32>>().unwrap()
    );
    AggregationFormula::<AcPowerActive>::new(text).to_text()
}

#[test]
fn power_formula_for_all_steam_boilers() {
    assert_eq!(
        boiler_power(None),
        "METRIC_AC_POWER_ACTIVE::(COALESCE(#5 + #4, #3, COALESCE(#5, 0.0) + COALESCE(#4, 0.0)))"
    );
}

#[test]
fn power_formula_for_explicit_steam_boiler() {
    assert_eq!(
        boiler_power(Some(ids(&[4]))),
        "METRIC_AC_POWER_ACTIVE::(COALESCE(#4, #3 - #5, 0.0))"
    );
}

#[test]
fn components_are_found_by_their_kind() {
    let graph = pv_graph();
    assert_eq!(all_ids(&graph, PoolKind::PvInverters), ids(&[4, 5]));
    assert_eq!(all_ids(&graph, PoolKind::Batteries), ids(&[8]));
    assert!(all_ids(&graph, PoolKind::SteamBoilers).is_empty());
    assert_eq!(
        all_ids(&boiler_graph(), PoolKind::SteamBoilers),
        ids(&[4, 5])
    );
}

fn groups(graph: &ComponentGraph, selection: &[u64]) -> Vec<(Vec<u64>, Vec<u64>)> {
    inverter_battery_groups(graph, &ids(selection))
        .ok()
        .unwrap()
        .iter()
        .map(|g| {
            (
                g.inverter_ids.iter().copied().collect(),
                g.battery_ids.iter().copied().collect(),
            )
        })
        .collect()
}

/// Two inverters share two batteries; a third has one of its own, behind a
/// converter.
fn mixed_graph() -> ComponentGraph {
    let mut components = vec![];
    let mut connections = vec![];
    Mock::grid(1)
        .with_children(vec![Mock::meter(2).with_children(vec![
            Mock::battery_inverter(3).with_children(vec![Mock::battery(10), Mock::battery(11)]),
            Mock::battery_inverter(4),
            Mock::battery_inverter(5).with_children(vec![Mock::of(
                20,
                ElectricalComponentCategory::Converter,
            )
            .with_children(vec![Mock::battery(9)])]),
        ])])
        .flatten(&mut components, &mut connections);
    for battery in [10, 11] {
        connections.push(ElectricalComponentConnection {
            source_electrical_component_id: 4,
            destination_electrical_component_id: battery,
        });
    }
    build_component_graph(
        Ok(components),
        Ok(connections),
        ComponentGraphConfig::default(),
    )
    .unwrap()
}

#[test]
fn groups_part_the_batteries() {
    let graph = mixed_graph();
    assert_eq!(
        groups(&graph, &[9, 10, 11]),
        vec![(vec![5], vec![9]), (vec![3, 4], vec![10, 11])]
    );
    assert_eq!(groups(&graph, &[10, 11]), vec![(vec![3, 4], vec![10, 11])]);
    assert!(groups(&graph, &[]).is_empty());
    let pool = BatteryPool::try_new(Some(ids(&[9, 10, 11])), &graph).ok().unwrap();
    assert_eq!(pool.get_battery_ids(), ids(&[9, 10, 11]));
}

#[test]
fn groups_report_what_cannot_be_grouped() {
    let graph = mixed_graph();
    let fault = |selection: &[u64]| {
        inverter_battery_groups(&graph, &ids(selection))
            .err()
            .unwrap()
            .to_text()
    };
    assert_eq!(
        fault(&[11]),
        "ComponentDataError: Inverters {3, 4} are connected to batteries {10, 11} which are not \
         all in the requested component IDs {11}"
    );
    assert_eq!(
        fault(&[99]),
        "ComponentGraphError: ComponentNotFound: Component with id 99 not found."
    );
    // A meter sits behind no inverter.
    assert_eq!(
        fault(&[2]),
        "ComponentDataError: Battery 2 is not connected to any inverters."
    );
}

#[test]
fn groups_must_be_closed() {
    // Battery 11 is behind inverters 3 and 4, battery 10 behind 3 alone.
    let mut components = vec![];
    let mut connections = vec![];
    Mock::grid(1)
        .with_children(vec![Mock::meter(2).with_children(vec![
            Mock::battery_inverter(3).with_children(vec![Mock::battery(10), Mock::battery(11)]),
            Mock::battery_inverter(4),
        ])])
        .flatten(&mut components, &mut connections);
    connections.push(ElectricalComponentConnection {
        source_electrical_component_id: 4,
        destination_electrical_component_id: 11,
    });
    let graph = build_component_graph(
        Ok(components),
        Ok(connections),
        ComponentGraphConfig::default(),
    )
    .unwrap();
    assert_eq!(
        inverter_battery_groups(&graph, &ids(&[10, 11]))
            .err()
            .unwrap()
            .to_text(),
        "ComponentDataError: Battery 11 is connected to inverters {3, 4} which are not all in the \
         same group {3}"
    );
}

#[test]
fn groups_refuse_what_the_graph_looks_through() {
    let graph = Mock::grid(1)
        .with_children(vec![Mock::meter(2).with_children(vec![
            Mock::battery_inverter(3).with_children(vec![Mock::of(
                5,
                ElectricalComponentCategory::Breaker,
            )
            .with_children(vec![Mock::battery(4)])]),
        ])])
        .graph();
    assert_eq!(groups(&graph, &[4]), vec![(vec![3], vec![4])]);
    assert_eq!(
        inverter_battery_groups(&graph, &ids(&[4, 5]))
            .err()
            .unwrap()
            .to_text(),
        "ComponentDataError: Component 5 is not among the batteries {4} of its inverters {3}"
    );
}

fn frame(id: u64, state: ElectricalComponentStateCode) -> ElectricalComponentTelemetry {
    ElectricalComponentTelemetry {
        electrical_component_id: id,
        metric_samples: vec![],
        state_snapshots: vec![ElectricalComponentStateSnapshot {
            states: vec![Coded::Known(state)],
            errors: vec![],
        }],
    }
}

/// The tracker of a battery pool with the trackers of its components.
struct Site {
    pool: BatteryPool,
    tracker: BatteryPoolTelemetryTracker,
    statuses: Vec<(InverterBatteryGroup, InverterBatteryGroupStatus)>,
}

impl Site {
    fn new(graph: &ComponentGraph) -> Site {
        let pool = BatteryPool::try_new(None, graph).ok().unwrap();
        let tracker = BatteryPoolTelemetryTracker::new(pool.groups());
        let statuses = pool
            .groups()
            .iter()
            .map(|g| (g.clone(), InverterBatteryGroupStatus::unheard(g)))
            .collect();
        Site {
            pool,
            tracker,
            statuses,
        }
    }

    fn event(&mut self, id: u64, event: TrackerEvent) {
        let codes = match self.pool.telemetry_snapshots(None) {
            TrackerStep::Start(plan) => plan.healthy_state_codes,
            TrackerStep::Reuse => panic!("no tracker was started"),
        };
        let report = match ComponentTelemetryTracker::new(id, codes).handle(event) {
            TrackerAction::Report(report) => report,
            _ => panic!("expected a report"),
        };
        for (group, status) in &mut self.statuses {
            status.record(group, report.clone());
            assert!(matches!(
                self.tracker
                    .handle(PoolEvent::Status(group.clone(), status.clone())),
                PoolAction::Nothing
            ));
        }
    }

    fn data(&mut self, id: u64, state: ElectricalComponentStateCode) {
        self.event(id, TrackerEvent::Data(frame(id, state)));
    }
}

/// grid -> meter -> battery_inverter(3) -> battery(4)
fn single_group_graph() -> ComponentGraph {
    Mock::grid(1)
        .with_children(vec![Mock::meter(2).with_children(vec![
            Mock::battery_inverter(3).with_children(vec![Mock::battery(4)])
        ])])
        .graph()
}

#[test]
fn single_group_reaches_healthy_state() {
    let mut site = Site::new(&single_group_graph());
    // Before anything is heard, every member is there and unhealthy.
    let (_, status) = &site.tracker.snapshot().groups()[0];
    assert_eq!(status.inverters.unhealthy, [(3, None)].into());
    assert_eq!(status.batteries.unhealthy, [(4, None)].into());

    site.data(3, ElectricalComponentStateCode::Ready);
    site.data(4, ElectricalComponentStateCode::Ready);

    let groups = site.tracker.snapshot().groups();
    assert_eq!(
        groups.len(),
        1,
        "expected exactly one inverter-battery group"
    );
    let (group, status) = &groups[0];
    assert_eq!(group.inverter_ids, ids(&[3]));
    assert_eq!(group.battery_ids, ids(&[4]));
    assert!(status.inverters.healthy.contains_key(&3));
    assert!(status.batteries.healthy.contains_key(&4));
    assert!(status.inverters.unhealthy.is_empty());
    assert!(status.batteries.unhealthy.is_empty());
}

#[test]
fn two_disjoint_groups_both_appear_in_snapshot() {
    let graph = Mock::grid(1)
        .with_children(vec![Mock::meter(2).with_children(vec![
            Mock::battery_inverter(3).with_children(vec![Mock::battery(4)]),
            Mock::battery_inverter(5).with_children(vec![Mock::battery(6)]),
        ])])
        .graph();
    let mut site = Site::new(&graph);
    for id in [3, 4, 5, 6] {
        site.data(id, ElectricalComponentStateCode::Ready);
    }
    let groups = site.tracker.snapshot().groups();
    assert_eq!(groups.len(), 2);
    let all_inverters: BTreeSet<u64> = groups
        .iter()
        .flat_map(|(g, _)| g.inverter_ids.iter().copied())
        .collect();
    let all_batteries: BTreeSet<u64> = groups
        .iter()
        .flat_map(|(g, _)| g.battery_ids.iter().copied())
        .collect();
    assert_eq!(all_inverters, ids(&[3, 5]));
    assert_eq!(all_batteries, ids(&[4, 6]));
    for (_, status) in groups {
        assert!(status.inverters.unhealthy.is_empty());
        assert!(status.batteries.unhealthy.is_empty());
    }
}

#[test]
fn components_become_unhealthy_when_data_stops() {
    let mut site = Site::new(&single_group_graph());
    site.data(3, ElectricalComponentStateCode::Ready);
    site.data(4, ElectricalComponentStateCode::Ready);
    let (_, status) = &site.tracker.snapshot().groups()[0];
    assert!(status.inverters.healthy.contains_key(&3) && status.batteries.healthy.contains_key(&4));

    site.event(3, TrackerEvent::Overdue);
    site.event(4, TrackerEvent::Overdue);
    let (_, status) = &site.tracker.snapshot().groups()[0];
    assert!(status.inverters.healthy.is_empty());
    assert!(status.batteries.healthy.is_empty());
    assert!(status.inverters.unhealthy.contains_key(&3));
    assert!(status.batteries.unhealthy.contains_key(&4));
}

#[test]
fn component_with_bad_state_is_unhealthy() {
    let mut site = Site::new(&single_group_graph());
    site.data(3, ElectricalComponentStateCode::Ready);
    site.data(4, ElectricalComponentStateCode::Error);
    let (_, status) = &site.tracker.snapshot().groups()[0];
    assert!(
        status.inverters.healthy.contains_key(&3),
        "inverter with Ready state should be healthy"
    );
    assert!(
        !status.batteries.healthy.contains_key(&4),
        "battery with Error state should not be in healthy set"
    );
    assert!(
        status.batteries.unhealthy.contains_key(&4),
        "battery with Error state should be in unhealthy set"
    );
}

#[test]
fn reports_keep_the_groups_of_the_pool() {
    let mut site = Site::new(&mixed_graph());
    let before: Vec<InverterBatteryGroup> = site
        .tracker
        .snapshot()
        .groups()
        .iter()
        .map(|(g, _)| g.clone())
        .collect();
    site.data(9, ElectricalComponentStateCode::Ready);
    // A component of no group.
    site.data(77, ElectricalComponentStateCode::Ready);
    let after: Vec<InverterBatteryGroup> = site
        .tracker
        .snapshot()
        .groups()
        .iter()
        .map(|(g, _)| g.clone())
        .collect();
    assert_eq!(before, after);
    for (_, status) in site.tracker.snapshot().groups() {
        assert!(!status.inverters.healthy.contains_key(&77));
        assert!(!status.batteries.healthy.contains_key(&77));
    }
    assert!(!site.tracker.is_empty_pool());
    assert!(matches!(
        site.tracker.handle(PoolEvent::TrackersGone),
        PoolAction::Stop
    ));
}

#[test]
fn a_pool_of_one_kind_is_followed() {
    let mut tracker = ComponentPoolTelemetryTracker::new(&ids(&[4, 5]));
    assert!(!tracker.is_empty_pool());
    assert_eq!(tracker.partition().unhealthy, [(4, None), (5, None)].into());
    assert!(tracker.partition().healthy.is_empty());

    let ready = frame(4, ElectricalComponentStateCode::Ready);
    let report = ComponentHealthStatus::Healthy(4, ready.clone());
    assert_eq!(
        tracker.handle(ComponentPoolEvent::Status(report)),
        PoolAction::Nothing
    );
    assert_eq!(tracker.partition().healthy, [(4, ready.clone())].into());
    assert_eq!(tracker.partition().unhealthy, [(5, None)].into());

    assert_eq!(
        tracker.handle(ComponentPoolEvent::Tick { receivers: 2 }),
        PoolAction::PublishIfChanged
    );
    assert_eq!(
        tracker.handle(ComponentPoolEvent::Tick { receivers: 0 }),
        PoolAction::Stop
    );
    assert_eq!(
        tracker.handle(ComponentPoolEvent::TrackersGone),
        PoolAction::Stop
    );
    assert_eq!(tracker.partition().healthy, [(4, ready)].into());

    let report = ComponentHealthStatus::Unhealthy(4, None);
    tracker.handle(ComponentPoolEvent::Status(report));
    assert!(tracker.partition().healthy.is_empty());
    assert_eq!(tracker.partition().unhealthy, [(4, None), (5, None)].into());
}

#[test]
fn an_empty_pool_of_one_kind_lasts_while_somebody_listens() {
    let mut tracker = ComponentPoolTelemetryTracker::new(&BTreeSet::new());
    assert!(tracker.is_empty_pool());
    assert_eq!(
        tracker.handle(ComponentPoolEvent::TrackersGone),
        PoolAction::Nothing
    );
    assert_eq!(
        tracker.handle(ComponentPoolEvent::Tick { receivers: 1 }),
        PoolAction::PublishIfChanged
    );
    assert_eq!(
        tracker.handle(ComponentPoolEvent::Tick { receivers: 0 }),
        PoolAction::Stop
    );
}

#[test]
fn a_snapshot_is_the_map_that_was_inserted() {
    let group = |inverter: u64, battery: u64| {
        InverterBatteryGroup::new([inverter].into(), [battery].into())
    };
    let unheard = |g: &InverterBatteryGroup| InverterBatteryGroupStatus::unheard(g);
    let (a, b) = (group(3, 4), group(5, 6));
    let mut snapshot = BatteryPoolSnapshot::new();
    assert!(snapshot.groups().is_empty());
    snapshot.insert(a.clone(), unheard(&b));
    snapshot.insert(b.clone(), unheard(&b));
    snapshot.insert(a.clone(), unheard(&a));
    assert_eq!(
        *snapshot.groups(),
        vec![(a.clone(), unheard(&a)), (b.clone(), unheard(&b))]
    );
}

#[test]
fn late_receivers_are_handed_the_latest_value() {
    let same = |a: &u64, b: &u64| a == b;
    let mut latest = Latest::new();
    assert_eq!(latest.replay(), None);
    assert!(latest.offer(1, &same));
    assert!(!latest.offer(1, &same));
    assert_eq!(latest.replay(), Some(&1));
    assert!(latest.offer(2, &same));
    assert!(!latest.offer(2, &same));
    assert_eq!(latest.replay(), Some(&2));
}

#[test]
fn snapshots_are_equal_whatever_order_the_groups_came_in() {
    let group = |inverters: &[u64], batteries: &[u64]| {
        InverterBatteryGroup::new(ids(inverters), ids(batteries))
    };
    let all = vec![
        group(&[3], &[]),
        group(&[3], &[4, 6]),
        group(&[3, 9], &[4, 6]),
        group(&[2], &[4, 7]),
        group(&[1], &[5]),
    ];
    let snapshot = |order: [usize; 5]| {
        let mut snapshot = BatteryPoolSnapshot::new();
        for k in order {
            let status = InverterBatteryGroupStatus::unheard(&all[k]);
            snapshot.insert(all[k].clone(), status);
        }
        snapshot
    };
    let first = snapshot([0, 1, 2, 3, 4]);
    for order in [[4, 3, 2, 1, 0], [2, 0, 4, 1, 3], [1, 4, 0, 3, 2]] {
        assert_eq!(snapshot(order), first);
    }
    let listed: Vec<InverterBatteryGroup> =
        first.groups().iter().map(|(g, _)| g.clone()).collect();
    assert_eq!(listed, all);

    let mut other = snapshot([4, 3, 2, 1, 0]);
    other.insert(all[2].clone(), InverterBatteryGroupStatus::unheard(&all[1]));
    assert!(other != first);
}

#[test]
fn the_default_snapshot_has_no_groups() {
    assert!(BatteryPoolSnapshot::default().groups().is_empty());
    assert_eq!(BatteryPoolSnapshot::default(), BatteryPoolSnapshot::new());
}

#[test]
fn groups_go_by_their_lowest_battery() {
    let graph = Mock::grid(1)
        .with_children(vec![Mock::meter(2).with_children(vec![
            Mock::battery_inverter(3).with_children(vec![Mock::battery(20), Mock::battery(8)]),
            Mock::battery_inverter(4).with_children(vec![Mock::battery(15)]),
            Mock::battery_inverter(5).with_children(vec![Mock::battery(7)]),
        ])])
        .graph();
    assert_eq!(
        groups(&graph, &[7, 8, 15, 20]),
        vec![
            (vec![5], vec![7]),
            (vec![3], vec![8, 20]),
            (vec![4], vec![15])
        ]
    );
}

fn with_bounds(
    id: u64,
    metric: MetricPb,
    lower: f32,
    upper: f32,
) -> (u64, ElectricalComponentTelemetry) {
    let mut data = frame(id, ElectricalComponentStateCode::Ready);
    data.metric_samples.push(MetricSample {
        sample_time: None,
        metric: Coded::Known(metric),
        value: None,
        bounds: vec![PbBounds {
            lower: Some(single(lower)),
            upper: Some(single(upper)),
        }],
    });
    (id, data)
}

#[test]
fn pools_read_their_bounds_from_their_metrics() {
    let active = MetricPb::AcPowerActive;
    let bounds = |lower, upper| vec![Bounds::new(Some(single(lower)), Some(single(upper)))];

    let graph = pv_graph();
    let pool = PvPool::try_new(None, &graph).ok().unwrap();
    let mut snapshot = PvPoolSnapshot::unheard(&ids(&[4, 5]));
    snapshot.inverters.healthy = [
        with_bounds(4, active, -10.0, 0.0),
        with_bounds(5, MetricPb::DcPower, -99.0, 0.0),
    ]
    .into();
    assert_eq!(pool.power_bounds(&snapshot, &plus), bounds(-10.0, 0.0));

    let pool = BatteryPool::try_new(None, &graph).ok().unwrap();
    let group = InverterBatteryGroup::new(ids(&[7]), ids(&[8]));
    let mut status = InverterBatteryGroupStatus::unheard(&group);
    status.inverters.healthy = [with_bounds(7, active, -10.0, 20.0)].into();
    status.batteries.healthy = [with_bounds(8, MetricPb::DcPower, -5.0, 30.0)].into();
    let mut snapshot = BatteryPoolSnapshot::new();
    snapshot.insert(group.clone(), status.clone());
    assert_eq!(pool.power_bounds(&snapshot, &plus), bounds(-5.0, 20.0));
    // Batteries are not asked for their active power.
    status.batteries.healthy = [with_bounds(8, active, -5.0, 30.0)].into();
    snapshot.insert(group, status);
    assert!(pool.power_bounds(&snapshot, &plus).is_empty());

    let graph = boiler_graph();
    let pool = SteamBoilerPool::try_new(None, &graph).ok().unwrap();
    let mut snapshot = SteamBoilerPoolSnapshot::unheard(&ids(&[4, 5]));
    snapshot.boilers.healthy = [
        with_bounds(4, active, 0.0, 3.0),
        with_bounds(5, active, 0.0, 4.0),
    ]
    .into();
    assert_eq!(pool.power_bounds(&snapshot, &plus), bounds(0.0, 7.0));
}

#[test]
fn bounds_are_published_while_somebody_listens() {
    assert_eq!(
        bounds_step(SnapshotNews::Came, 1),
        BoundsStep::PublishIfChanged
    );
    assert_eq!(bounds_step(SnapshotNews::Came, 0), BoundsStep::Stop);
    for receivers in [0, 1] {
        assert_eq!(bounds_step(SnapshotNews::Lagged, receivers), BoundsStep::GoOn);
        assert_eq!(bounds_step(SnapshotNews::Closed, receivers), BoundsStep::Stop);
    }
}
