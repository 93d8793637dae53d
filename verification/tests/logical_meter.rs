//! Formulas over the component graph.

use std::collections::{BTreeSet, HashMap};

use chrono::TimeDelta;
use frequenz_microgrid_component_graph::ComponentGraphConfig;
use frequenz_microgrid_formula_engine as engine;

use frequenz_microgrid::client::proto::{
    CategorySpecificKind, Coded, ElectricalComponent, ElectricalComponentCategory,
    ElectricalComponentCategorySpecificInfo, ElectricalComponentConnection,
    ElectricalComponentOperationalMode, InverterType, Metric as MetricPb,
};
use frequenz_microgrid::component_graph::ComponentGraph;
use frequenz_microgrid::error::{Error, ErrorKind};
use frequenz_microgrid::logical_meter::config::LogicalMeterConfig;
use frequenz_microgrid::logical_meter::expr::Expr;
use frequenz_microgrid::logical_meter::formula::graph_formula::{
    subscribe_error, AggregationFormula, CoalesceFormula, SubscribeFault,
};
use frequenz_microgrid::logical_meter::formula::{tag_components, Formula, Key, Operand};
use frequenz_microgrid::logical_meter::logical_meter_handle::{
    build_component_graph, formula, graph_formula, setup_step, GraphRequest, LogicalMeterHandle,
    SetupStep,
};
use frequenz_microgrid::metric::{
    AcCurrent, AcFrequency, AcPowerActive, AcPowerApparent, AcPowerReactive, AcVoltage,
    FormulaKind, Metric,
};
use frequenz_microgrid::quantity::Quantity;
use frequenz_microgrid::single::Single;

fn single(value: f32) -> Single {
    Single::from_bits(value.to_bits())
}

fn to_single<K>(formula: engine::Formula<f32, K>) -> Expr<K> {
    match formula {
        engine::Formula::Constant(value) => engine::Formula::Constant(value.map(single)),
        engine::Formula::Neg(inner) => engine::Formula::Neg(Box::new(to_single(*inner))),
        engine::Formula::Sum { first, rest } => engine::Formula::Sum {
            first: Box::new(to_single(*first)),
            rest: rest.into_iter().map(|(op, e)| (op, to_single(e))).collect(),
        },
        engine::Formula::Product { first, rest } => engine::Formula::Product {
            first: Box::new(to_single(*first)),
            rest: rest.into_iter().map(|(op, e)| (op, to_single(e))).collect(),
        },
        engine::Formula::Function { function, args } => engine::Formula::Function {
            function,
            args: args.into_iter().map(to_single).collect(),
        },
        engine::Formula::Component(key) => engine::Formula::Component(key),
    }
}

fn to_float<K: Clone>(expr: &Expr<K>) -> engine::Formula<f32, K> {
    match expr {
        engine::Formula::Constant(value) => {
            engine::Formula::Constant(value.map(|v| f32::from_bits(v.to_bits())))
        }
        engine::Formula::Neg(inner) => engine::Formula::Neg(Box::new(to_float(inner))),
        engine::Formula::Sum { first, rest } => engine::Formula::Sum {
            first: Box::new(to_float(first)),
            rest: rest.iter().map(|(op, e)| (*op, to_float(e))).collect(),
        },
        engine::Formula::Product { first, rest } => engine::Formula::Product {
            first: Box::new(to_float(first)),
            rest: rest.iter().map(|(op, e)| (*op, to_float(e))).collect(),
        },
        engine::Formula::Function { function, args } => engine::Formula::Function {
            function: *function,
            args: args.iter().map(to_float).collect(),
        },
        engine::Formula::Component(key) => engine::Formula::Component(key.clone()),
    }
}

fn parse(text: String) -> Result<Expr<u64>, String> {
    text.parse::<engine::Formula<f32>>()
        .map(to_single)
        .map_err(|e| e.to_string())
}

fn shown_expr(expr: &Expr<Key>) -> String {
    to_float(expr).map_components(|key| key.to_text()).to_string()
}

fn shown<Q: Quantity>(formula: &Formula<Q>) -> String {
    shown_expr(formula.expr())
}

fn cloned<Q: Quantity>(formula: &Formula<Q>) -> Formula<Q> {
    Formula::new(formula.expr().clone())
}

#[derive(Clone)]
struct Mock {
    component: ElectricalComponent,
    children: Vec<Mock>,
}

impl Mock {
    fn of(id: u64, category: ElectricalComponentCategory) -> Mock {
        Mock {
            component: ElectricalComponent {
                id,
                category: Coded::Known(category),
                category_specific_info: None,
                operational_mode: Coded::Known(ElectricalComponentOperationalMode::Unspecified),
            },
            children: vec![],
        }
    }

    fn grid(id: u64) -> Mock {
        Mock::of(id, ElectricalComponentCategory::GridConnectionPoint)
    }

    fn meter(id: u64) -> Mock {
        Mock::of(id, ElectricalComponentCategory::Meter)
    }

    fn inverter(id: u64, inverter_type: InverterType) -> Mock {
        let mut mock = Mock::of(id, ElectricalComponentCategory::Inverter);
        mock.component.category_specific_info = Some(ElectricalComponentCategorySpecificInfo {
            kind: Some(CategorySpecificKind::Inverter(Coded::Known(inverter_type))),
        });
        mock
    }

    fn pv_inverter(id: u64) -> Mock {
        Mock::inverter(id, InverterType::Pv)
    }

    fn battery_inverter(id: u64) -> Mock {
        Mock::inverter(id, InverterType::Battery)
    }

    fn battery(id: u64) -> Mock {
        Mock::of(id, ElectricalComponentCategory::Battery)
    }

    fn with_children(mut self, children: Vec<Mock>) -> Mock {
        self.children = children;
        self
    }

    fn with_operational_mode(mut self, mode: ElectricalComponentOperationalMode) -> Mock {
        self.component.operational_mode = Coded::Known(mode);
        self
    }

    fn flatten(
        &self,
        components: &mut Vec<ElectricalComponent>,
        connections: &mut Vec<ElectricalComponentConnection>,
    ) {
        components.push(self.component);
        for child in &self.children {
            connections.push(ElectricalComponentConnection {
                source_electrical_component_id: self.component.id,
                destination_electrical_component_id: child.component.id,
            });
            child.flatten(components, connections);
        }
    }

    fn try_graph(&self, config: ComponentGraphConfig) -> Result<ComponentGraph, String> {
        let mut components = vec![];
        let mut connections = vec![];
        self.flatten(&mut components, &mut connections);
        build_component_graph(Ok(components), Ok(connections), config)
    }

    fn handle(&self, config: ComponentGraphConfig) -> LogicalMeterHandle {
        LogicalMeterHandle::new(self.try_graph(config).unwrap())
    }
}

fn site() -> Mock {
    Mock::grid(1).with_children(vec![Mock::meter(2).with_children(vec![
        Mock::meter(3).with_children(vec![Mock::pv_inverter(4)]),
        Mock::meter(5).with_children(vec![
            Mock::battery_inverter(6).with_children(vec![Mock::battery(7)]),
            Mock::battery_inverter(8).with_children(vec![Mock::battery(9)]),
        ]),
        Mock::meter(10),
        Mock::meter(11).with_children(vec![Mock::of(12, ElectricalComponentCategory::Chp)]),
        Mock::meter(13).with_children(vec![
            Mock::of(14, ElectricalComponentCategory::EvCharger),
            Mock::of(15, ElectricalComponentCategory::EvCharger),
        ]),
        Mock::meter(16)
            .with_children(vec![Mock::of(17, ElectricalComponentCategory::SteamBoiler)]),
    ])])
}

fn ids(list: &[u64]) -> Option<BTreeSet<u64>> {
    Some(list.iter().copied().collect())
}

fn text_of<E: std::fmt::Debug>(r: Result<Formula<Single>, E>) -> String {
    shown(&r.unwrap())
}

fn err_of(r: Result<Formula<Single>, Error>) -> Error {
    match r {
        Ok(f) => panic!("expected an error, got {}", shown(&f)),
        Err(e) => e,
    }
}

#[test]
fn test_formula_display() {
    let lm = site().handle(
        ComponentGraphConfig::builder()
            .prefer_meters_in_component_formulas(false)
            .include_phantom_loads_in_consumer_formula(true)
            .build(),
    );

    assert_eq!(
        text_of(lm.grid::<AcPowerActive, Single, _>(&parse)),
        "#2:AC_POWER_ACTIVE"
    );
    assert_eq!(
        text_of(lm.battery::<AcPowerReactive, Single, _>(None, &parse)),
        "COALESCE(#8:AC_POWER_REACTIVE + #6:AC_POWER_REACTIVE, #5:AC_POWER_REACTIVE, \
         COALESCE(#8:AC_POWER_REACTIVE, 0) + COALESCE(#6:AC_POWER_REACTIVE, 0))"
    );
    assert_eq!(
        text_of(lm.battery::<AcPowerActive, Single, _>(ids(&[9]), &parse)),
        "COALESCE(#8:AC_POWER_ACTIVE, #5:AC_POWER_ACTIVE - #6:AC_POWER_ACTIVE, 0)"
    );
    assert_eq!(
        text_of(lm.battery::<AcVoltage, Single, _>(ids(&[7]), &parse)),
        "COALESCE(#5:AC_VOLTAGE, #6:AC_VOLTAGE)"
    );
    assert_eq!(
        text_of(lm.battery::<AcFrequency, Single, _>(None, &parse)),
        "COALESCE(#5:AC_FREQUENCY, #6:AC_FREQUENCY, #8:AC_FREQUENCY)"
    );
    assert_eq!(
        text_of(lm.pv::<AcPowerReactive, Single, _>(None, &parse)),
        "COALESCE(#4:AC_POWER_REACTIVE, #3:AC_POWER_REACTIVE, 0)"
    );
    assert_eq!(
        text_of(lm.chp::<AcPowerActive, Single, _>(None, &parse)),
        "COALESCE(#12:AC_POWER_ACTIVE, #11:AC_POWER_ACTIVE, 0)"
    );
    assert_eq!(
        text_of(lm.ev_charger::<AcCurrent, Single, _>(None, &parse)),
        "COALESCE(#15:AC_CURRENT + #14:AC_CURRENT, #13:AC_CURRENT, \
         COALESCE(#15:AC_CURRENT, 0) + COALESCE(#14:AC_CURRENT, 0))"
    );
    assert_eq!(
        text_of(lm.steam_boiler::<AcPowerActive, Single, _>(None, &parse)),
        "COALESCE(#17:AC_POWER_ACTIVE, #16:AC_POWER_ACTIVE, 0)"
    );

    // 16 is the steam boiler's meter, not a steam boiler.
    let err = err_of(lm.steam_boiler::<AcPowerActive, Single, _>(ids(&[16]), &parse));
    assert!(err.to_text().contains("is not a steam boiler"), "{}", err.to_text());

    let consumer = text_of(lm.consumer::<AcCurrent, Single, _>(&parse));
    let written = graph_formula::<AcCurrent>(lm.graph(), GraphRequest::Consumer).unwrap();
    assert_eq!(
        consumer,
        shown_expr(&tag_components(parse(written).unwrap(), MetricPb::AcCurrent))
    );
    assert!(consumer.contains("MAX("), "{consumer}");
    assert!(consumer.contains("#10:AC_CURRENT"), "{consumer}");

    let producer = text_of(lm.producer::<AcPowerActive, Single, _>(&parse));
    let written = graph_formula::<AcPowerActive>(lm.graph(), GraphRequest::Producer).unwrap();
    assert_eq!(
        producer,
        shown_expr(&tag_components(parse(written).unwrap(), MetricPb::AcPowerActive))
    );
    assert!(producer.starts_with("MIN("), "{producer}");
    assert!(producer.contains("#12:AC_POWER_ACTIVE"), "{producer}");

    assert_eq!(
        text_of(lm.component::<AcCurrent, Single, _>(10, &parse)),
        "#10:AC_CURRENT"
    );

    // The coalesce kind is only defined for grid, battery, pv and component;
    // the other categories report it.
    let err = err_of(lm.consumer::<AcVoltage, Single, _>(&parse));
    assert!(err
        .to_text()
        .contains("does not support consumer formula generation"));
    let err = err_of(lm.ev_charger::<AcFrequency, Single, _>(None, &parse));
    assert!(err
        .to_text()
        .contains("does not support ev_charger formula generation"));
    let err = err_of(lm.steam_boiler::<AcVoltage, Single, _>(None, &parse));
    assert!(err
        .to_text()
        .contains("does not support steam_boiler formula generation"));
}

/// `grid(1) -> meter(2) -> [meter(3) -> [pv_inverter(4), pv_inverter(5)]]`, with
/// `mode`, when set, applied to inverter 4.
fn pv_handle(mode: Option<ElectricalComponentOperationalMode>) -> LogicalMeterHandle {
    let mut inverter_4 = Mock::pv_inverter(4);
    if let Some(mode) = mode {
        inverter_4 = inverter_4.with_operational_mode(mode);
    }
    Mock::grid(1)
        .with_children(vec![Mock::meter(2).with_children(vec![
            Mock::meter(3).with_children(vec![inverter_4, Mock::pv_inverter(5)])
        ])])
        .handle(ComponentGraphConfig::default())
}

#[test]
fn test_non_telemetry_modes_are_not_measurement_sources() {
    for mode in [
        ElectricalComponentOperationalMode::Inactive,
        ElectricalComponentOperationalMode::ControlOnly,
    ] {
        let lm = pv_handle(Some(mode));
        assert_eq!(
            text_of(lm.pv::<AcPowerActive, Single, _>(None, &parse)),
            "COALESCE(#3:AC_POWER_ACTIVE, #5:AC_POWER_ACTIVE, 0)",
            "{mode:?}"
        );
        assert_eq!(
            text_of(lm.component::<AcPowerActive, Single, _>(4, &parse)),
            "None",
            "{mode:?}"
        );
    }
}

#[test]
fn test_telemetry_providing_modes_keep_the_formula() {
    let baseline = text_of(pv_handle(None).pv::<AcPowerActive, Single, _>(None, &parse));
    assert!(baseline.contains("#4"), "{baseline}");

    for mode in [
        ElectricalComponentOperationalMode::Unspecified,
        ElectricalComponentOperationalMode::TelemetryOnly,
        ElectricalComponentOperationalMode::ControlAndTelemetry,
    ] {
        assert_eq!(
            text_of(pv_handle(Some(mode)).pv::<AcPowerActive, Single, _>(None, &parse)),
            baseline,
            "{mode:?}"
        );
    }
}

fn grid_power() -> Formula<Single> {
    site()
        .handle(ComponentGraphConfig::default())
        .grid::<AcPowerActive, Single, _>(&parse)
        .unwrap()
}

#[test]
fn test_builder_display() {
    let grid = grid_power();

    // A percentage of 50.
    assert_eq!(
        shown(&cloned(&grid).times(single(50.0 / 100.0))),
        "#2:AC_POWER_ACTIVE * 0.5"
    );
    assert_eq!(shown(&cloned(&grid).avg(vec![])), "AVG(#2:AC_POWER_ACTIVE)");
    assert_eq!(
        shown(&cloned(&grid).minus(Operand::Constant(single(1.0)))),
        "#2:AC_POWER_ACTIVE - 1"
    );
    assert_eq!(
        shown(&cloned(&grid).max(Operand::Formula(cloned(&grid)))),
        "MAX(#2:AC_POWER_ACTIVE, #2:AC_POWER_ACTIVE)"
    );
    // Chained coalesce flattens into a single node.
    assert_eq!(
        shown(
            &cloned(&grid)
                .coalesce(Operand::Constant(single(0.0)))
                .coalesce(Operand::Formula(cloned(&grid)))
        ),
        "COALESCE(#2:AC_POWER_ACTIVE, 0, #2:AC_POWER_ACTIVE)"
    );
    assert_eq!(
        shown(
            &cloned(&grid)
                .plus(Operand::Formula(cloned(&grid)))
                .over(single(2.0))
        ),
        "(#2:AC_POWER_ACTIVE + #2:AC_POWER_ACTIVE) / 2"
    );
}

fn value_with(formula: &Formula<Single>, readings: &[(Key, f32)]) -> Option<f32> {
    let mut source: HashMap<Key, Option<f32>> =
        readings.iter().map(|(k, v)| (*k, Some(*v))).collect();
    match to_float(formula.expr()).evaluate(&mut source).unwrap() {
        engine::Reading::Known(value) => value,
        engine::Reading::Unknown => None,
    }
}

#[test]
fn test_composed_formula_tracks_its_operands() {
    let grid = grid_power();
    let doubled = cloned(&grid).plus(Operand::Formula(cloned(&grid)));
    let scaled = cloned(&grid).times(single(2.0));
    let offset = cloned(&grid).plus(Operand::Constant(single(1.0)));
    let capped = cloned(&grid).min(Operand::Constant(single(6.0)));
    assert_eq!(shown(&doubled), "#2:AC_POWER_ACTIVE + #2:AC_POWER_ACTIVE");
    assert_eq!(shown(&scaled), "#2:AC_POWER_ACTIVE * 2");
    assert_eq!(shown(&capped), "MIN(#2:AC_POWER_ACTIVE, 6)");

    let key = Key::new(MetricPb::AcPowerActive, 2);
    for b in [4.0, 5.0, 6.0, 7.0, 7.0] {
        let readings = [(key, b)];
        assert_eq!(value_with(&grid, &readings), Some(b));
        assert_eq!(value_with(&doubled, &readings), Some(2.0 * b));
        assert_eq!(value_with(&scaled, &readings), Some(2.0 * b));
        assert_eq!(value_with(&offset, &readings), Some(b + 1.0));
        assert_eq!(value_with(&capped, &readings), Some(b.min(6.0)));
    }
}

#[test]
fn test_mixed_metric_formula() {
    let lm = site().handle(ComponentGraphConfig::default());
    let voltage = lm.battery::<AcVoltage, Single, _>(None, &parse).unwrap();
    let averaged = cloned(&voltage)
        .avg(vec![Operand::Formula(cloned(&voltage))])
        .over(single(2.0))
        .plus(Operand::Constant(single(0.0)));
    let v = shown(&voltage);
    assert!(v.starts_with("COALESCE(#"), "{v}");
    assert_eq!(shown(&averaged), format!("AVG({v}, {v}) / 2 + 0"));
    for b in [400.0, 398.0, 396.0] {
        let readings = [(Key::new(MetricPb::AcVoltage, 5), b)];
        assert_eq!(value_with(&voltage, &readings), Some(b));
        assert_eq!(value_with(&averaged, &readings), Some(b / 2.0));
    }
}

#[test]
fn chained_calls_become_one_in_any_order() {
    let one = |id| {
        Formula::<Single>::new(engine::Formula::Component(Key::new(
            MetricPb::AcPowerActive,
            id,
        )))
    };
    let left = one(1)
        .min(Operand::Formula(one(2)))
        .min(Operand::Formula(one(3)));
    let right = one(1).min(Operand::Formula(one(2).min(Operand::Formula(one(3)))));
    assert_eq!(left.expr(), right.expr());
    // An average of averages is not the average of all.
    let nested = one(1).avg(vec![Operand::Formula(one(2).avg(vec![]))]);
    assert_eq!(
        shown(&nested),
        "AVG(#1:AC_POWER_ACTIVE, AVG(#2:AC_POWER_ACTIVE))"
    );
}

#[test]
fn test_ac_power_apparent_metric() {
    assert_eq!(AcPowerApparent::METRIC, MetricPb::AcPowerApparent);
    assert_eq!(AcPowerApparent::KIND, FormulaKind::Aggregation);
    assert_eq!(AcPowerApparent::str_name(), "AcPowerApparent");
}

#[test]
fn test_interval_counts_are_at_least_one() {
    let config = LogicalMeterConfig::<()>::new(TimeDelta::try_seconds(1).unwrap())
        .with_max_age_in_intervals(0)
        .with_unsubscribe_after_intervals(0);
    assert_eq!(config.max_age_in_intervals(), 1);
    assert_eq!(config.unsubscribe_after_intervals(), 1);
}

#[test]
fn settings_default_and_the_last_override_counts() {
    let config = LogicalMeterConfig::<&str>::new(TimeDelta::try_seconds(2).unwrap());
    assert_eq!(config.resampling_interval(), &TimeDelta::try_seconds(2).unwrap());
    assert_eq!(config.max_age_in_intervals(), 3);
    assert_eq!(config.unsubscribe_after_intervals(), 3);
    assert_eq!(config.resampling_function(MetricPb::AcVoltage), None);

    let config = config
        .with_default_resampling_function("max")
        .override_resampling_function::<AcVoltage>("first")
        .override_resampling_function::<AcCurrent>("sum")
        .override_resampling_function::<AcVoltage>("last");
    assert_eq!(config.resampling_function(MetricPb::AcVoltage), Some(&"last"));
    assert_eq!(config.resampling_function(MetricPb::AcCurrent), Some(&"sum"));
    assert_eq!(config.resampling_function(MetricPb::AcPowerActive), Some(&"max"));
}

#[test]
fn the_graph_settings_reach_the_graph() {
    // With meters preferred, the meter comes before the inverter.
    let config = LogicalMeterConfig::<()>::new(TimeDelta::try_seconds(1).unwrap())
        .with_component_graph_config(
            ComponentGraphConfig::builder()
                .prefer_meters_in_component_formulas(true)
                .build(),
        );
    let lm = site().handle(config.component_graph_config().clone());
    assert_eq!(
        text_of(lm.pv::<AcPowerActive, Single, _>(None, &parse)),
        "COALESCE(#3:AC_POWER_ACTIVE, #4:AC_POWER_ACTIVE, 0)"
    );
    let config = LogicalMeterConfig::<()>::new(TimeDelta::try_seconds(1).unwrap());
    let lm = site().handle(config.component_graph_config().clone());
    assert_eq!(
        text_of(lm.pv::<AcPowerActive, Single, _>(None, &parse)),
        "COALESCE(#4:AC_POWER_ACTIVE, #3:AC_POWER_ACTIVE, 0)"
    );
}

#[test]
fn coalesce_formulas_of_all_requests() {
    let lm = site().handle(ComponentGraphConfig::default());
    let grid = text_of(lm.grid::<AcVoltage, Single, _>(&parse));
    assert_eq!(grid, "#2:AC_VOLTAGE");
    let pv = text_of(lm.pv::<AcVoltage, Single, _>(None, &parse));
    assert_eq!(pv, "COALESCE(#3:AC_VOLTAGE, #4:AC_VOLTAGE)");
    assert_eq!(
        text_of(lm.component::<AcVoltage, Single, _>(10, &parse)),
        "#10:AC_VOLTAGE"
    );
    for (request, name) in [
        (GraphRequest::Producer, "producer"),
        (GraphRequest::Chp(None), "chp"),
    ] {
        assert_eq!(request.name(), name);
        let err = graph_formula::<AcVoltage>(lm.graph(), request).unwrap_err();
        assert_eq!(err.kind(), ErrorKind::ComponentGraphError);
        assert_eq!(
            err.to_text(),
            format!(
                "ComponentGraphError: The component graph does not support {name} formula \
                 generation for AcVoltage."
            )
        );
    }
}

#[test]
fn an_unknown_component_is_an_error_of_the_graph() {
    let lm = site().handle(ComponentGraphConfig::default());
    let err = err_of(lm.component::<AcPowerActive, Single, _>(99, &parse));
    assert_eq!(
        err.to_text(),
        "ComponentGraphError: Could not get component formula: ComponentNotFound: Component with \
         id 99 not found."
    );
    let err = err_of(lm.component::<AcVoltage, Single, _>(99, &parse));
    assert_eq!(err.kind(), ErrorKind::ComponentGraphError);
}

#[test]
fn a_formula_that_cannot_be_parsed_is_reported() {
    let lm = site().handle(ComponentGraphConfig::default());
    let refuse = |_: String| -> Result<Expr<u64>, String> { Err("no".to_string()) };
    let err = err_of(lm.grid::<AcPowerActive, Single, _>(&refuse));
    assert_eq!(err.kind(), ErrorKind::FormulaEngineError);
    assert_eq!(
        err.to_text(),
        "FormulaEngineError: Failed to parse formula: no"
    );
    let parsed = parse("#3 + #4".to_string());
    assert_eq!(
        shown(&formula::<AcCurrent, Single>(parsed).unwrap()),
        "#3:AC_CURRENT + #4:AC_CURRENT"
    );
}

#[test]
fn tagging_reaches_every_leaf() {
    let parsed = parse("-(#1 + MAX(#2, 3.0 * #3)) / COALESCE(#4, None)".to_string()).unwrap();
    assert_eq!(
        shown_expr(&tag_components(parsed, MetricPb::DcPower)),
        "-(#1:DC_POWER + MAX(#2:DC_POWER, 3 * #3:DC_POWER)) / COALESCE(#4:DC_POWER, None)"
    );
}

#[test]
fn a_graph_that_cannot_be_built_is_tried_again() {
    // No grid connection point.
    let reason = match Mock::meter(2).try_graph(ComponentGraphConfig::default()) {
        Ok(_) => panic!("a graph without a grid must be rejected"),
        Err(reason) => reason,
    };
    assert_eq!(
        reason,
        "building component graph failed: InvalidGraph: No grid component found."
    );
    match setup_step(Err(reason.clone())) {
        SetupStep::RetryAfter(secs, told) => {
            assert_eq!(secs, 3);
            assert_eq!(told, reason);
        }
        SetupStep::Ready(_) => panic!("expected another attempt"),
    }
    let graph = site().try_graph(ComponentGraphConfig::default());
    assert!(matches!(setup_step(graph), SetupStep::Ready(_)));
}

#[test]
fn what_the_api_did_not_list_is_reported() {
    let failed = || Error::api_server_error("gone".to_string());
    let r = build_component_graph(Err(failed()), Ok(vec![]), ComponentGraphConfig::default());
    assert_eq!(
        r.err().unwrap(),
        "fetching components failed: APIServerError: gone"
    );
    let r = build_component_graph(Ok(vec![]), Err(failed()), ComponentGraphConfig::default());
    assert_eq!(
        r.err().unwrap(),
        "fetching component connections failed: APIServerError: gone"
    );
}

#[test]
fn graph_formulas_are_shown_with_the_api_name_of_their_metric() {
    let formula = AggregationFormula::<AcPowerActive>::new("#1 + #2".to_string());
    assert_eq!(formula.to_text(), "METRIC_AC_POWER_ACTIVE::(#1 + #2)");
    assert_eq!(formula.formula(), "#1 + #2");
    let formula = CoalesceFormula::<AcVoltage>::new("#1".to_string());
    assert_eq!(formula.to_text(), "METRIC_AC_VOLTAGE::(#1)");
}

#[test]
fn lost_instructions_are_connection_failures() {
    let err = subscribe_error(SubscribeFault::NotSent("closed".to_string()));
    assert_eq!(
        err.to_text(),
        "ConnectionFailure: Could not send instruction: closed"
    );
    let err = subscribe_error(SubscribeFault::NotAnswered("gone".to_string()));
    assert_eq!(
        err.to_text(),
        "ConnectionFailure: Could not receive instruction: gone"
    );
}
