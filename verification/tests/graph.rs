//! Components and connections as the graph sees them, errors, texts and maps.

use frequenz_microgrid_component_graph as gr;
use frequenz_microgrid_component_graph::{ComponentCategory as G, Edge, Node};

use frequenz_microgrid::client::proto::graph::{GraphComponent, GraphConnection};
use frequenz_microgrid::client::proto::{
    BatteryType, CategorySpecificKind, Coded, ElectricalComponent,
    ElectricalComponentCategory as C, ElectricalComponentCategorySpecificInfo,
    ElectricalComponentConnection, ElectricalComponentOperationalMode as M, EvChargerType,
    InverterType, Metric as MetricPb,
};
use frequenz_microgrid::error::{Error, ErrorKind};
use frequenz_microgrid::ids::{is_subset, place_of, sorted, Place};
use frequenz_microgrid::logical_meter::formula::Key;
use frequenz_microgrid::logical_meter::key_map::KeyMap;
use frequenz_microgrid::metric::{AcFrequency, DcPower, FormulaKind, Metric};
use frequenz_microgrid::text::{push_decimal, push_id_set, strip_prefix};

fn component(
    category: C,
    kind: Option<CategorySpecificKind>,
) -> GraphComponent {
    GraphComponent::from(ElectricalComponent {
        id: 5,
        category: Coded::Known(category),
        category_specific_info: kind
            .map(|kind| ElectricalComponentCategorySpecificInfo { kind: Some(kind) }),
        operational_mode: Coded::Known(M::Unspecified),
    })
}

#[test]
fn categories_carry_over() {
    for (from, to) in [
        (C::Unspecified, G::Unspecified),
        (C::GridConnectionPoint, G::GridConnectionPoint),
        (C::Meter, G::Meter),
        (C::Inverter, G::Inverter(gr::InverterType::Unspecified)),
        (C::Converter, G::Converter),
        (C::Battery, G::Battery(gr::BatteryType::Unspecified)),
        (C::EvCharger, G::EvCharger(gr::EvChargerType::Unspecified)),
        (C::CryptoMiner, G::CryptoMiner),
        (C::Electrolyzer, G::Electrolyzer),
        (C::Chp, G::Chp),
        (C::Hvac, G::Hvac),
        (C::Breaker, G::Breaker),
        (C::Precharger, G::Precharger),
        (C::PowerTransformer, G::PowerTransformer),
        (C::Plc, G::Plc),
        (C::StaticTransferSwitch, G::StaticTransferSwitch),
        (C::UninterruptiblePowerSupply, G::UninterruptiblePowerSupply),
        (C::CapacitorBank, G::CapacitorBank),
        (C::WindTurbine, G::WindTurbine),
        (C::SteamBoiler, G::SteamBoiler),
    ] {
        assert_eq!(component(from, None).category(), to);
    }
    let mut unknown = component(C::Meter, None);
    unknown.0.category = Coded::Unknown(1234);
    assert_eq!(unknown.category(), G::Unspecified);
    assert_eq!(unknown.component_id(), 5);
}

#[test]
fn types_carry_over() {
    let inverter = |t| component(C::Inverter, Some(CategorySpecificKind::Inverter(t)));
    let pv = inverter(Coded::Known(InverterType::Pv));
    let battery = inverter(Coded::Known(InverterType::Battery));
    let hybrid = inverter(Coded::Known(InverterType::Hybrid));
    let unknown = inverter(Coded::Unknown(77));
    assert_eq!(pv.category(), G::Inverter(gr::InverterType::Pv));
    assert_eq!(battery.category(), G::Inverter(gr::InverterType::Battery));
    assert_eq!(hybrid.category(), G::Inverter(gr::InverterType::Hybrid));
    assert_eq!(
        unknown.category(),
        G::Inverter(gr::InverterType::Unspecified)
    );
    let told = |c: &GraphComponent| {
        (
            c.is_inverter(),
            c.is_pv_inverter(),
            c.is_battery_inverter(),
            c.is_hybrid_inverter(),
        )
    };
    assert_eq!(told(&pv), (true, true, false, false));
    assert_eq!(told(&battery), (true, false, true, false));
    assert_eq!(told(&hybrid), (true, false, false, true));
    assert_eq!(told(&unknown), (true, false, false, false));
    assert_eq!(
        told(&component(C::Battery, None)),
        (false, false, false, false)
    );
    // What belongs to another category says nothing.
    assert_eq!(
        component(
            C::Inverter,
            Some(CategorySpecificKind::Battery(Coded::Known(
                BatteryType::LiIon
            )))
        )
        .category(),
        G::Inverter(gr::InverterType::Unspecified)
    );
    for (from, to) in [
        (BatteryType::LiIon, gr::BatteryType::LiIon),
        (BatteryType::NaIon, gr::BatteryType::NaIon),
        (BatteryType::Unspecified, gr::BatteryType::Unspecified),
    ] {
        let kind = Some(CategorySpecificKind::Battery(Coded::Known(from)));
        assert_eq!(component(C::Battery, kind).category(), G::Battery(to));
    }
    for (from, to) in [
        (EvChargerType::Ac, gr::EvChargerType::Ac),
        (EvChargerType::Dc, gr::EvChargerType::Dc),
        (EvChargerType::Hybrid, gr::EvChargerType::Hybrid),
        (EvChargerType::Unspecified, gr::EvChargerType::Unspecified),
    ] {
        let kind = Some(CategorySpecificKind::EvCharger(Coded::Known(from)));
        assert_eq!(component(C::EvCharger, kind).category(), G::EvCharger(to));
    }
    assert_eq!(
        component(C::Battery, Some(CategorySpecificKind::Other)).category(),
        G::Battery(gr::BatteryType::Unspecified)
    );
}

#[test]
fn modes_carry_over() {
    for (from, to) in [
        (Coded::Known(M::Unspecified), gr::OperationalMode::Unspecified),
        (Coded::Known(M::Inactive), gr::OperationalMode::Inactive),
        (
            Coded::Known(M::TelemetryOnly),
            gr::OperationalMode::TelemetryOnly,
        ),
        (Coded::Known(M::ControlOnly), gr::OperationalMode::ControlOnly),
        (
            Coded::Known(M::ControlAndTelemetry),
            gr::OperationalMode::ControlAndTelemetry,
        ),
        (Coded::Unknown(9), gr::OperationalMode::Unspecified),
    ] {
        let mut c = component(C::Meter, None);
        c.0.operational_mode = from;
        assert_eq!(c.operational_mode(), to);
    }
}

#[test]
fn connections_carry_over() {
    let connection = GraphConnection::from(ElectricalComponentConnection {
        source_electrical_component_id: 1,
        destination_electrical_component_id: 2,
    });
    assert_eq!(connection.source(), 1);
    assert_eq!(connection.destination(), 2);
}

#[test]
fn errors_tell_their_kind() {
    let made: [(fn(String) -> Error, ErrorKind, &str); 8] = [
        (
            Error::component_graph_error,
            ErrorKind::ComponentGraphError,
            "ComponentGraphError",
        ),
        (
            Error::component_data_error,
            ErrorKind::ComponentDataError,
            "ComponentDataError",
        ),
        (
            Error::connection_failure,
            ErrorKind::ConnectionFailure,
            "ConnectionFailure",
        ),
        (
            Error::formula_engine_error,
            ErrorKind::FormulaEngineError,
            "FormulaEngineError",
        ),
        (
            Error::invalid_component,
            ErrorKind::InvalidComponent,
            "InvalidComponent",
        ),
        (
            Error::invalid_config,
            ErrorKind::InvalidConfig,
            "InvalidConfig",
        ),
        (Error::internal, ErrorKind::Internal, "Internal"),
        (
            Error::api_server_error,
            ErrorKind::APIServerError,
            "APIServerError",
        ),
    ];
    for (make, kind, name) in made {
        let error = make("why".to_string());
        assert_eq!(error.kind(), kind);
        assert_eq!(error.to_text(), format!("{name}: why"));
    }
}

#[test]
fn texts_of_keys_and_ids() {
    assert_eq!(Key::new(MetricPb::DcPower, 12).to_text(), "12:DC_POWER");
    let mut text = String::new();
    push_decimal(&mut text, 0);
    push_decimal(&mut text, u64::MAX);
    assert_eq!(text, "018446744073709551615");
    let mut text = String::from("of ");
    push_id_set(&mut text, &[3, 1, 20].into());
    push_id_set(&mut text, &[].into());
    assert_eq!(text, "of {1, 3, 20}{}");
    assert_eq!(strip_prefix("METRIC_X", "METRIC_"), "X");
    assert_eq!(strip_prefix("METRI", "METRIC_"), "METRI");
    assert_eq!(strip_prefix("X_METRIC_", "METRIC_"), "X_METRIC_");
}

#[test]
fn sets_of_ids_compare() {
    assert_eq!(sorted(&[30, 4, 5].into()), vec![4, 5, 30]);
    assert!(is_subset(&[1].into(), &[1, 2].into()));
    assert!(is_subset(&[].into(), &[].into()));
    assert!(!is_subset(&[1, 3].into(), &[1, 2].into()));
    assert_eq!(place_of(&vec![1, 2], &vec![1, 2]), Place::Same);
    assert_eq!(place_of(&vec![1], &vec![1, 2]), Place::Before);
    assert_eq!(place_of(&vec![1, 3], &vec![1, 2, 4]), Place::After);
    assert_eq!(place_of(&vec![], &vec![]), Place::Same);
}

#[test]
fn keys_have_one_value() {
    let a = Key::new(MetricPb::DcPower, 1);
    let b = Key::new(MetricPb::AcPowerActive, 1);
    let mut map: KeyMap<u32> = KeyMap::new();
    map.insert(a, 1);
    map.insert(b, 2);
    map.insert(a, 3);
    assert_eq!(map.entries(), &vec![(a, 3), (b, 2)]);
    assert!(map.contains_key(a));
    map.remove(a);
    assert!(!map.contains_key(a));
    assert_eq!(map.get(b), Some(2));
    map.remove(a);
    assert_eq!(map.entries().len(), 1);
}

#[test]
fn metrics_tell_their_kind() {
    assert_eq!(DcPower::METRIC, MetricPb::DcPower);
    assert_eq!(DcPower::KIND, FormulaKind::Aggregation);
    assert_eq!(AcFrequency::KIND, FormulaKind::Coalesce);
    assert_eq!(AcFrequency::str_name(), "AcFrequency");
    assert_eq!(MetricPb::AcFrequency.as_str_name(), "METRIC_AC_FREQUENCY");
}
