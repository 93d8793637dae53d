//! Components and connections as the nodes and edges of the component graph.

use frequenz_microgrid_component_graph as gr;
use frequenz_microgrid_component_graph::{
    BatteryType as NodeBatteryType, EvChargerType as NodeEvChargerType,
    InverterType as NodeInverterType,
};
use vstd::prelude::*;

use super::{
    BatteryType, CategorySpecificKind, Coded, ElectricalComponent, ElectricalComponentCategory,
    ElectricalComponentCategorySpecificInfo, ElectricalComponentConnection,
    ElectricalComponentOperationalMode, EvChargerType, InverterType,
};

verus! {

/// The category of a node, as the component graph names it.
#[verifier::external_type_specification]
pub struct ExGraphCategory(gr::ComponentCategory);

/// The type of an inverter, as the component graph names it.
#[verifier::external_type_specification]
pub struct ExGraphInverterType(NodeInverterType);

/// The type of a battery, as the component graph names it.
#[verifier::external_type_specification]
pub struct ExGraphBatteryType(NodeBatteryType);

/// The type of an EV charger, as the component graph names it.
#[verifier::external_type_specification]
pub struct ExGraphEvChargerType(NodeEvChargerType);

/// The operational mode of a node, as the component graph names it.
#[verifier::external_type_specification]
pub struct ExGraphOperationalMode(gr::OperationalMode);

/// An electrical component as a node of the component graph.
#[derive(Clone, Copy, Debug, PartialEq, Eq)]
pub struct GraphComponent(pub ElectricalComponent);

/// A connection as an edge of the component graph.
#[derive(Clone, Copy, Debug, PartialEq, Eq)]
pub struct GraphConnection(pub ElectricalComponentConnection);

impl From<ElectricalComponent> for GraphComponent {
    fn from(component: ElectricalComponent) -> (r: Self) {
        GraphComponent(component)
    }
}

impl vstd::std_specs::convert::FromSpecImpl<ElectricalComponent> for GraphComponent {
    open spec fn obeys_from_spec() -> bool {
        true
    }

    open spec fn from_spec(component: ElectricalComponent) -> Self {
        GraphComponent(component)
    }
}

impl From<ElectricalComponentConnection> for GraphConnection {
    fn from(connection: ElectricalComponentConnection) -> (r: Self) {
        GraphConnection(connection)
    }
}

impl vstd::std_specs::convert::FromSpecImpl<ElectricalComponentConnection> for GraphConnection {
    open spec fn obeys_from_spec() -> bool {
        true
    }

    open spec fn from_spec(connection: ElectricalComponentConnection) -> Self {
        GraphConnection(connection)
    }
}

/// The category-specific information of a component, where there is any.
pub open spec fn specific_kind(
    info: Option<ElectricalComponentCategorySpecificInfo>,
) -> Option<CategorySpecificKind> {
    match info {
        Some(info) => info.kind,
        None => None,
    }
}

/// The inverter type that `kind` gives: unspecified where it gives none.
pub open spec fn inverter_type_of(kind: Option<CategorySpecificKind>) -> NodeInverterType {
    match kind {
        Some(CategorySpecificKind::Inverter(Coded::Known(InverterType::Pv))) => {
            NodeInverterType::Pv
        },
        Some(CategorySpecificKind::Inverter(Coded::Known(InverterType::Battery))) => {
            NodeInverterType::Battery
        },
        Some(CategorySpecificKind::Inverter(Coded::Known(InverterType::Hybrid))) => {
            NodeInverterType::Hybrid
        },
        _ => NodeInverterType::Unspecified,
    }
}

/// The battery type that `kind` gives: unspecified where it gives none.
pub open spec fn battery_type_of(kind: Option<CategorySpecificKind>) -> NodeBatteryType {
    match kind {
        Some(CategorySpecificKind::Battery(Coded::Known(BatteryType::LiIon))) => {
            NodeBatteryType::LiIon
        },
        Some(CategorySpecificKind::Battery(Coded::Known(BatteryType::NaIon))) => {
            NodeBatteryType::NaIon
        },
        _ => NodeBatteryType::Unspecified,
    }
}

/// The EV charger type that `kind` gives: unspecified where it gives none.
pub open spec fn ev_charger_type_of(kind: Option<CategorySpecificKind>) -> NodeEvChargerType {
    match kind {
        Some(CategorySpecificKind::EvCharger(Coded::Known(EvChargerType::Ac))) => {
            NodeEvChargerType::Ac
        },
        Some(CategorySpecificKind::EvCharger(Coded::Known(EvChargerType::Dc))) => {
            NodeEvChargerType::Dc
        },
        Some(CategorySpecificKind::EvCharger(Coded::Known(EvChargerType::Hybrid))) => {
            NodeEvChargerType::Hybrid
        },
        _ => NodeEvChargerType::Unspecified,
    }
}

/// The node category of a component.
pub open spec fn node_category(component: ElectricalComponent) -> gr::ComponentCategory {
    let kind = specific_kind(component.category_specific_info);
    match component.spec_category() {
        ElectricalComponentCategory::Unspecified => gr::ComponentCategory::Unspecified,
        ElectricalComponentCategory::GridConnectionPoint => {
            gr::ComponentCategory::GridConnectionPoint
        },
        ElectricalComponentCategory::Meter => gr::ComponentCategory::Meter,
        ElectricalComponentCategory::Inverter => {
            gr::ComponentCategory::Inverter(inverter_type_of(kind))
        },
        ElectricalComponentCategory::Converter => gr::ComponentCategory::Converter,
        ElectricalComponentCategory::Battery => {
            gr::ComponentCategory::Battery(battery_type_of(kind))
        },
        ElectricalComponentCategory::EvCharger => {
            gr::ComponentCategory::EvCharger(ev_charger_type_of(kind))
        },
        ElectricalComponentCategory::CryptoMiner => gr::ComponentCategory::CryptoMiner,
        ElectricalComponentCategory::Electrolyzer => gr::ComponentCategory::Electrolyzer,
        ElectricalComponentCategory::Chp => gr::ComponentCategory::Chp,
        ElectricalComponentCategory::Hvac => gr::ComponentCategory::Hvac,
        ElectricalComponentCategory::Breaker => gr::ComponentCategory::Breaker,
        ElectricalComponentCategory::Precharger => gr::ComponentCategory::Precharger,
        ElectricalComponentCategory::PowerTransformer => gr::ComponentCategory::PowerTransformer,
        ElectricalComponentCategory::Plc => gr::ComponentCategory::Plc,
        ElectricalComponentCategory::StaticTransferSwitch => {
            gr::ComponentCategory::StaticTransferSwitch
        },
        ElectricalComponentCategory::UninterruptiblePowerSupply => {
            gr::ComponentCategory::UninterruptiblePowerSupply
        },
        ElectricalComponentCategory::CapacitorBank => gr::ComponentCategory::CapacitorBank,
        ElectricalComponentCategory::WindTurbine => gr::ComponentCategory::WindTurbine,
        ElectricalComponentCategory::SteamBoiler => gr::ComponentCategory::SteamBoiler,
    }
}

/// The operational mode of a node; one that is not known counts as
/// unspecified.
pub open spec fn node_mode(component: ElectricalComponent) -> gr::OperationalMode {
    match component.operational_mode {
        Coded::Known(ElectricalComponentOperationalMode::Inactive) => gr::OperationalMode::Inactive,
        Coded::Known(ElectricalComponentOperationalMode::TelemetryOnly) => {
            gr::OperationalMode::TelemetryOnly
        },
        Coded::Known(ElectricalComponentOperationalMode::ControlOnly) => {
            gr::OperationalMode::ControlOnly
        },
        Coded::Known(ElectricalComponentOperationalMode::ControlAndTelemetry) => {
            gr::OperationalMode::ControlAndTelemetry
        },
        _ => gr::OperationalMode::Unspecified,
    }
}

impl GraphComponent {
    /// The component's category, as the component graph sees it.
    pub open spec fn spec_graph_category(&self) -> gr::ComponentCategory {
        node_category(self.0)
    }

    /// The component's category, as the component graph sees it.
    fn graph_category(&self) -> (r: gr::ComponentCategory)
        ensures
            r == self.spec_graph_category(),
    {
        gr::Node::category(self)
    }

    /// Whether the component is an inverter.
    pub fn is_inverter(&self) -> (r: bool)
        ensures
            r == (self.0.spec_category() == ElectricalComponentCategory::Inverter),
            r == (self.spec_graph_category() is Inverter),
    {
        matches!(self.graph_category(), gr::ComponentCategory::Inverter(_))
    }

    /// Whether the component is a PV inverter.
    pub fn is_pv_inverter(&self) -> (r: bool)
        ensures
            r == (self.spec_graph_category() == gr::ComponentCategory::Inverter(
                NodeInverterType::Pv,
            )),
    {
        matches!(self.graph_category(), gr::ComponentCategory::Inverter(NodeInverterType::Pv))
    }

    /// Whether the component is a battery inverter.
    pub fn is_battery_inverter(&self) -> (r: bool)
        ensures
            r == (self.spec_graph_category() == gr::ComponentCategory::Inverter(
                NodeInverterType::Battery,
            )),
    {
        matches!(self.graph_category(), gr::ComponentCategory::Inverter(NodeInverterType::Battery))
    }

    /// Whether the component is a hybrid inverter.
    pub fn is_hybrid_inverter(&self) -> (r: bool)
        ensures
            r == (self.spec_graph_category() == gr::ComponentCategory::Inverter(
                NodeInverterType::Hybrid,
            )),
    {
        matches!(self.graph_category(), gr::ComponentCategory::Inverter(NodeInverterType::Hybrid))
    }

    fn kind(&self) -> (r: Option<CategorySpecificKind>)
        ensures
            r == specific_kind(self.0.category_specific_info),
    {
        match self.0.category_specific_info {
            Some(info) => info.kind,
            None => None,
        }
    }

    fn inverter_type(&self) -> (r: NodeInverterType)
        ensures
            r == inverter_type_of(specific_kind(self.0.category_specific_info)),
    {
        match self.kind() {
            Some(CategorySpecificKind::Inverter(Coded::Known(inverter))) => match inverter {
                InverterType::Pv => NodeInverterType::Pv,
                InverterType::Battery => NodeInverterType::Battery,
                InverterType::Hybrid => NodeInverterType::Hybrid,
                InverterType::Unspecified => NodeInverterType::Unspecified,
            },
            _ => NodeInverterType::Unspecified,
        }
    }

    fn battery_type(&self) -> (r: NodeBatteryType)
        ensures
            r == battery_type_of(specific_kind(self.0.category_specific_info)),
    {
        match self.kind() {
            Some(CategorySpecificKind::Battery(Coded::Known(battery))) => match battery {
                BatteryType::LiIon => NodeBatteryType::LiIon,
                BatteryType::NaIon => NodeBatteryType::NaIon,
                BatteryType::Unspecified => NodeBatteryType::Unspecified,
            },
            _ => NodeBatteryType::Unspecified,
        }
    }

    fn ev_charger_type(&self) -> (r: NodeEvChargerType)
        ensures
            r == ev_charger_type_of(specific_kind(self.0.category_specific_info)),
    {
        match self.kind() {
            Some(CategorySpecificKind::EvCharger(Coded::Known(ev_charger))) => match ev_charger {
                EvChargerType::Ac => NodeEvChargerType::Ac,
                EvChargerType::Dc => NodeEvChargerType::Dc,
                EvChargerType::Hybrid => NodeEvChargerType::Hybrid,
                EvChargerType::Unspecified => NodeEvChargerType::Unspecified,
            },
            _ => NodeEvChargerType::Unspecified,
        }
    }
}

impl gr::Node for GraphComponent {
    /// The component's ID.
    fn component_id(&self) -> (r: u64)
        ensures
            r == self.0.id,
    {
        self.0.id
    }

    /// The component's category and, where the category has types, its type.
    /// A category or type that is not known, and information that belongs to
    /// another category, count as unspecified.
    fn category(&self) -> (r: gr::ComponentCategory)
        ensures
            r == self.spec_graph_category(),
    {
        match self.0.category() {
            ElectricalComponentCategory::Unspecified => gr::ComponentCategory::Unspecified,
            ElectricalComponentCategory::GridConnectionPoint => {
                gr::ComponentCategory::GridConnectionPoint
            },
            ElectricalComponentCategory::Meter => gr::ComponentCategory::Meter,
            ElectricalComponentCategory::Inverter => {
                gr::ComponentCategory::Inverter(self.inverter_type())
            },
            ElectricalComponentCategory::Converter => gr::ComponentCategory::Converter,
            ElectricalComponentCategory::Battery => {
                gr::ComponentCategory::Battery(self.battery_type())
            },
            ElectricalComponentCategory::EvCharger => {
                gr::ComponentCategory::EvCharger(self.ev_charger_type())
            },
            ElectricalComponentCategory::CryptoMiner => gr::ComponentCategory::CryptoMiner,
            ElectricalComponentCategory::Electrolyzer => gr::ComponentCategory::Electrolyzer,
            ElectricalComponentCategory::Chp => gr::ComponentCategory::Chp,
            ElectricalComponentCategory::Hvac => gr::ComponentCategory::Hvac,
            ElectricalComponentCategory::Breaker => gr::ComponentCategory::Breaker,
            ElectricalComponentCategory::Precharger => gr::ComponentCategory::Precharger,
            ElectricalComponentCategory::PowerTransformer => {
                gr::ComponentCategory::PowerTransformer
            },
            ElectricalComponentCategory::Plc => gr::ComponentCategory::Plc,
            ElectricalComponentCategory::StaticTransferSwitch => {
                gr::ComponentCategory::StaticTransferSwitch
            },
            ElectricalComponentCategory::UninterruptiblePowerSupply => {
                gr::ComponentCategory::UninterruptiblePowerSupply
            },
            ElectricalComponentCategory::CapacitorBank => gr::ComponentCategory::CapacitorBank,
            ElectricalComponentCategory::WindTurbine => gr::ComponentCategory::WindTurbine,
            ElectricalComponentCategory::SteamBoiler => gr::ComponentCategory::SteamBoiler,
        }
    }

    /// The component's operational mode, which says whether it provides
    /// telemetry.
    fn operational_mode(&self) -> (r: gr::OperationalMode)
        ensures
            r == node_mode(self.0),
    {
        match self.0.operational_mode {
            Coded::Known(mode) => match mode {
                ElectricalComponentOperationalMode::Unspecified => gr::OperationalMode::Unspecified,
                ElectricalComponentOperationalMode::Inactive => gr::OperationalMode::Inactive,
                ElectricalComponentOperationalMode::TelemetryOnly => {
                    gr::OperationalMode::TelemetryOnly
                },
                ElectricalComponentOperationalMode::ControlOnly => gr::OperationalMode::ControlOnly,
                ElectricalComponentOperationalMode::ControlAndTelemetry => {
                    gr::OperationalMode::ControlAndTelemetry
                },
            },
            Coded::Unknown(_) => gr::OperationalMode::Unspecified,
        }
    }
}

impl gr::Edge for GraphConnection {
    /// The component that the connection starts at.
    fn source(&self) -> (r: u64)
        ensures
            r == self.0.source_electrical_component_id,
    {
        self.0.source_electrical_component_id
    }

    /// The component that the connection ends at.
    fn destination(&self) -> (r: u64)
        ensures
            r == self.0.destination_electrical_component_id,
    {
        self.0.destination_electrical_component_id
    }
}

/// Every category is kept, and kept apart from the others; one that is not known
/// has no name.
pub proof fn law_categories_keep_their_names(component: ElectricalComponent)
    ensures
        node_category(component) is Inverter <==> component.category == Coded::<
            ElectricalComponentCategory,
        >::Known(ElectricalComponentCategory::Inverter),
        node_category(component) is Battery <==> component.category == Coded::<
            ElectricalComponentCategory,
        >::Known(ElectricalComponentCategory::Battery),
        node_category(component) is EvCharger <==> component.category == Coded::<
            ElectricalComponentCategory,
        >::Known(ElectricalComponentCategory::EvCharger),
        node_category(component) is GridConnectionPoint <==> component.category == Coded::<
            ElectricalComponentCategory,
        >::Known(ElectricalComponentCategory::GridConnectionPoint),
        node_category(component) is Meter <==> component.category == Coded::<
            ElectricalComponentCategory,
        >::Known(ElectricalComponentCategory::Meter),
        node_category(component) is Converter <==> component.category == Coded::<
            ElectricalComponentCategory,
        >::Known(ElectricalComponentCategory::Converter),
        node_category(component) is CryptoMiner <==> component.category == Coded::<
            ElectricalComponentCategory,
        >::Known(ElectricalComponentCategory::CryptoMiner),
        node_category(component) is Electrolyzer <==> component.category == Coded::<
            ElectricalComponentCategory,
        >::Known(ElectricalComponentCategory::Electrolyzer),
        node_category(component) is Chp <==> component.category == Coded::<
            ElectricalComponentCategory,
        >::Known(ElectricalComponentCategory::Chp),
        node_category(component) is Hvac <==> component.category == Coded::<
            ElectricalComponentCategory,
        >::Known(ElectricalComponentCategory::Hvac),
        node_category(component) is Breaker <==> component.category == Coded::<
            ElectricalComponentCategory,
        >::Known(ElectricalComponentCategory::Breaker),
        node_category(component) is Precharger <==> component.category == Coded::<
            ElectricalComponentCategory,
        >::Known(ElectricalComponentCategory::Precharger),
        node_category(component) is PowerTransformer <==> component.category == Coded::<
            ElectricalComponentCategory,
        >::Known(ElectricalComponentCategory::PowerTransformer),
        node_category(component) is Plc <==> component.category == Coded::<
            ElectricalComponentCategory,
        >::Known(ElectricalComponentCategory::Plc),
        node_category(component) is StaticTransferSwitch <==> component.category == Coded::<
            ElectricalComponentCategory,
        >::Known(ElectricalComponentCategory::StaticTransferSwitch),
        node_category(component) is UninterruptiblePowerSupply <==> component.category == Coded::<
            ElectricalComponentCategory,
        >::Known(ElectricalComponentCategory::UninterruptiblePowerSupply),
        node_category(component) is CapacitorBank <==> component.category == Coded::<
            ElectricalComponentCategory,
        >::Known(ElectricalComponentCategory::CapacitorBank),
        node_category(component) is WindTurbine <==> component.category == Coded::<
            ElectricalComponentCategory,
        >::Known(ElectricalComponentCategory::WindTurbine),
        node_category(component) is SteamBoiler <==> component.category == Coded::<
            ElectricalComponentCategory,
        >::Known(ElectricalComponentCategory::SteamBoiler),
        node_category(component) is Unspecified <==> (component.category is Unknown
            || component.category == Coded::<ElectricalComponentCategory>::Known(
            ElectricalComponentCategory::Unspecified,
        )),
{
}

/// Inverters, batteries and EV chargers are of the type that is told of them.
pub proof fn law_types_keep_their_names(component: ElectricalComponent)
    ensures
        node_category(component) == gr::ComponentCategory::Inverter(NodeInverterType::Pv) <==> (
        component.category == Coded::<ElectricalComponentCategory>::Known(
            ElectricalComponentCategory::Inverter,
        ) && component.category_specific_info == Some(
            ElectricalComponentCategorySpecificInfo {
                kind: Some(CategorySpecificKind::Inverter(Coded::<InverterType>::Known(InverterType::Pv))),
            },
        )),
        node_category(component) == gr::ComponentCategory::Inverter(NodeInverterType::Battery) <==> (
        component.category == Coded::<ElectricalComponentCategory>::Known(
            ElectricalComponentCategory::Inverter,
        ) && component.category_specific_info == Some(
            ElectricalComponentCategorySpecificInfo {
                kind: Some(CategorySpecificKind::Inverter(Coded::<InverterType>::Known(InverterType::Battery))),
            },
        )),
        node_category(component) == gr::ComponentCategory::Inverter(NodeInverterType::Hybrid) <==> (
        component.category == Coded::<ElectricalComponentCategory>::Known(
            ElectricalComponentCategory::Inverter,
        ) && component.category_specific_info == Some(
            ElectricalComponentCategorySpecificInfo {
                kind: Some(CategorySpecificKind::Inverter(Coded::<InverterType>::Known(InverterType::Hybrid))),
            },
        )),
        node_category(component) == gr::ComponentCategory::Battery(NodeBatteryType::LiIon) <==> (
        component.category == Coded::<ElectricalComponentCategory>::Known(
            ElectricalComponentCategory::Battery,
        ) && component.category_specific_info == Some(
            ElectricalComponentCategorySpecificInfo {
                kind: Some(CategorySpecificKind::Battery(Coded::<BatteryType>::Known(BatteryType::LiIon))),
            },
        )),
        node_category(component) == gr::ComponentCategory::Battery(NodeBatteryType::NaIon) <==> (
        component.category == Coded::<ElectricalComponentCategory>::Known(
            ElectricalComponentCategory::Battery,
        ) && component.category_specific_info == Some(
            ElectricalComponentCategorySpecificInfo {
                kind: Some(CategorySpecificKind::Battery(Coded::<BatteryType>::Known(BatteryType::NaIon))),
            },
        )),
        node_category(component) == gr::ComponentCategory::EvCharger(NodeEvChargerType::Ac) <==> (
        component.category == Coded::<ElectricalComponentCategory>::Known(
            ElectricalComponentCategory::EvCharger,
        ) && component.category_specific_info == Some(
            ElectricalComponentCategorySpecificInfo {
                kind: Some(CategorySpecificKind::EvCharger(Coded::<EvChargerType>::Known(EvChargerType::Ac))),
            },
        )),
        node_category(component) == gr::ComponentCategory::EvCharger(NodeEvChargerType::Dc) <==> (
        component.category == Coded::<ElectricalComponentCategory>::Known(
            ElectricalComponentCategory::EvCharger,
        ) && component.category_specific_info == Some(
            ElectricalComponentCategorySpecificInfo {
                kind: Some(CategorySpecificKind::EvCharger(Coded::<EvChargerType>::Known(EvChargerType::Dc))),
            },
        )),
        node_category(component) == gr::ComponentCategory::EvCharger(NodeEvChargerType::Hybrid) <==> (
        component.category == Coded::<ElectricalComponentCategory>::Known(
            ElectricalComponentCategory::EvCharger,
        ) && component.category_specific_info == Some(
            ElectricalComponentCategorySpecificInfo {
                kind: Some(CategorySpecificKind::EvCharger(Coded::<EvChargerType>::Known(EvChargerType::Hybrid))),
            },
        )),
{
}

/// Every operational mode is kept; one that is not known has no name.
pub proof fn law_modes_keep_their_names(component: ElectricalComponent)
    ensures
        node_mode(component) is Inactive <==> component.operational_mode == Coded::<
            ElectricalComponentOperationalMode,
        >::Known(ElectricalComponentOperationalMode::Inactive),
        node_mode(component) is TelemetryOnly <==> component.operational_mode == Coded::<
            ElectricalComponentOperationalMode,
        >::Known(ElectricalComponentOperationalMode::TelemetryOnly),
        node_mode(component) is ControlOnly <==> component.operational_mode == Coded::<
            ElectricalComponentOperationalMode,
        >::Known(ElectricalComponentOperationalMode::ControlOnly),
        node_mode(component) is ControlAndTelemetry <==> component.operational_mode == Coded::<
            ElectricalComponentOperationalMode,
        >::Known(ElectricalComponentOperationalMode::ControlAndTelemetry),
        node_mode(component) is Unspecified <==> (component.operational_mode is Unknown
            || component.operational_mode == Coded::<ElectricalComponentOperationalMode>::Known(
            ElectricalComponentOperationalMode::Unspecified,
        )),
{
}

}
