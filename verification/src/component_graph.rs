//! The component graph of the microgrid.
//!
//! The graph itself, its checks and the formulas it generates come from the
//! component graph's crate. This module says what the library relies on: which
//! components and connections a graph holds, who its neighbours are, and the
//! texts of its formulas.

use std::collections::BTreeSet;

use frequenz_microgrid_component_graph as gr;
use frequenz_microgrid_component_graph::Error as GraphError;
use vstd::prelude::*;

use crate::client::proto::graph::{node_mode, GraphComponent, GraphConnection};
use crate::error::graph_error_text;
use crate::text::decimal;

verus! {

/// The settings of a component graph.
#[verifier::external_type_specification]
#[verifier::external_body]
pub struct ExGraphConfig(gr::ComponentGraphConfig);

/// A component graph over the components and connections of a microgrid.
#[verifier::external_body]
pub struct ComponentGraph {
    inner: gr::ComponentGraph<GraphComponent, GraphConnection>,
}

/// The components of a graph, in the order in which they were given.
pub uninterp spec fn graph_components(graph: ComponentGraph) -> Seq<GraphComponent>;

/// The connections of a graph, each from a source to a destination.
pub uninterp spec fn graph_connections(graph: ComponentGraph) -> Set<(u64, u64)>;

/// The graph of the given components and connections, or why there is none.
pub uninterp spec fn graph_of(
    components: Seq<GraphComponent>,
    connections: Seq<GraphConnection>,
    config: gr::ComponentGraphConfig,
) -> Result<ComponentGraph, GraphError>;

/// How many components, and how many connections, a graph can hold.
pub const GRAPH_LIMIT: u32 = 0xffff_ffff;

/// Whether no two components have the same ID.
pub open spec fn distinct_ids(components: Seq<GraphComponent>) -> bool {
    forall|i: int, j: int|
        0 <= i < components.len() && 0 <= j < components.len() && components[i].0.id
            == components[j].0.id ==> i == j
}

/// The ends of the given connections.
pub open spec fn ends(connections: Seq<GraphConnection>) -> Set<(u64, u64)> {
    Set::new(
        |e: (u64, u64)|
            exists|i: int|
                0 <= i < connections.len() && #[trigger] connections[i].0.source_electrical_component_id
                    == e.0 && connections[i].0.destination_electrical_component_id == e.1,
    )
}

/// Whether a component with the given ID is in the graph.
pub open spec fn knows(graph: ComponentGraph, id: u64) -> bool {
    exists|i: int|
        0 <= i < graph_components(graph).len() && #[trigger] graph_components(graph)[i].0.id == id
}

/// Whether components of the category are looked through when neighbours are
/// sought.
pub open spec fn transparent(category: gr::ComponentCategory) -> bool {
    ||| category is Converter
    ||| category is Breaker
    ||| category is Precharger
    ||| category is Electrolyzer
    ||| category is PowerTransformer
    ||| category is Hvac
    ||| category is Plc
    ||| category is CryptoMiner
    ||| category is StaticTransferSwitch
    ||| category is UninterruptiblePowerSupply
    ||| category is CapacitorBank
}

/// Whether a component with the given ID is in the graph and looked through.
pub open spec fn looked_through(graph: ComponentGraph, id: u64) -> bool {
    exists|i: int|
        0 <= i < graph_components(graph).len() && #[trigger] graph_components(graph)[i].0.id == id
            && transparent(graph_components(graph)[i].spec_graph_category())
}

/// Whether `path` follows connections of the graph and passes, between its
/// ends, only components that are looked through.
pub open spec fn is_path(graph: ComponentGraph, path: Seq<u64>) -> bool {
    &&& path.len() >= 2
    &&& forall|i: int|
        0 <= i < path.len() - 1 ==> graph_connections(graph).contains(
            (#[trigger] path[i], path[i + 1]),
        )
    &&& forall|i: int| 0 < i < path.len() - 1 ==> looked_through(graph, #[trigger] path[i])
}

/// Whether a path leads from the component `from` to the component `to`.
#[verifier::opaque]
pub open spec fn linked(graph: ComponentGraph, from: u64, to: u64) -> bool {
    exists|path: Seq<u64>| is_path(graph, path) && path[0] == from && path.last() == to
}

/// Whether `component` is a predecessor of the component with the given ID.
pub open spec fn is_predecessor(graph: ComponentGraph, component: GraphComponent, id: u64) -> bool {
    &&& graph_components(graph).contains(component)
    &&& !transparent(component.spec_graph_category())
    &&& linked(graph, component.0.id, id)
}

/// Whether `component` is a successor of the component with the given ID.
pub open spec fn is_successor(graph: ComponentGraph, component: GraphComponent, id: u64) -> bool {
    &&& graph_components(graph).contains(component)
    &&& !transparent(component.spec_graph_category())
    &&& linked(graph, id, component.0.id)
}

/// What is said of an ID that is not in the graph.
pub open spec fn not_found(id: u64) -> Seq<char> {
    "ComponentNotFound: Component with id "@ + decimal(id as nat) + " not found."@
}

/// The text of a formula, or why there is none.
pub open spec fn formula_text(r: Result<String, GraphError>) -> Result<Seq<char>, GraphError> {
    match r {
        Ok(text) => Ok(text@),
        Err(e) => Err(e),
    }
}

/// The IDs that a formula was asked for, where it was asked for some.
pub open spec fn asked_ids(ids: Option<BTreeSet<u64>>) -> Option<Set<u64>> {
    match ids {
        Some(ids) => Some(ids@),
        None => None,
    }
}

/// The text of the grid formula.
pub uninterp spec fn grid_text(graph: ComponentGraph) -> Result<Seq<char>, GraphError>;

/// The text of the consumer formula.
pub uninterp spec fn consumer_text(graph: ComponentGraph) -> Result<Seq<char>, GraphError>;

/// The text of the producer formula.
pub uninterp spec fn producer_text(graph: ComponentGraph) -> Result<Seq<char>, GraphError>;

/// The text of the battery formula.
pub uninterp spec fn battery_text(
    graph: ComponentGraph,
    ids: Option<Set<u64>>,
) -> Result<Seq<char>, GraphError>;

/// The text of the CHP formula.
pub uninterp spec fn chp_text(
    graph: ComponentGraph,
    ids: Option<Set<u64>>,
) -> Result<Seq<char>, GraphError>;

/// The text of the PV formula.
pub uninterp spec fn pv_text(
    graph: ComponentGraph,
    ids: Option<Set<u64>>,
) -> Result<Seq<char>, GraphError>;

/// The text of the EV charger formula.
pub uninterp spec fn ev_charger_text(
    graph: ComponentGraph,
    ids: Option<Set<u64>>,
) -> Result<Seq<char>, GraphError>;

/// The text of the steam boiler formula.
pub uninterp spec fn steam_boiler_text(
    graph: ComponentGraph,
    ids: Option<Set<u64>>,
) -> Result<Seq<char>, GraphError>;

/// The text of the grid formula for metrics that are not summed.
pub uninterp spec fn grid_coalesce_text(graph: ComponentGraph) -> Result<Seq<char>, GraphError>;

/// The text of the battery formula for metrics that are not summed.
pub uninterp spec fn battery_coalesce_text(
    graph: ComponentGraph,
    ids: Option<Set<u64>>,
) -> Result<Seq<char>, GraphError>;

/// The text of the PV formula for metrics that are not summed.
pub uninterp spec fn pv_coalesce_text(
    graph: ComponentGraph,
    ids: Option<Set<u64>>,
) -> Result<Seq<char>, GraphError>;

/// Whether the component with the given ID provides telemetry.
pub open spec fn has_telemetry(graph: ComponentGraph, id: u64) -> bool {
    exists|i: int|
        0 <= i < graph_components(graph).len() && #[trigger] graph_components(graph)[i].0.id == id
            && !(node_mode(graph_components(graph)[i].0) is Inactive)
            && !(node_mode(graph_components(graph)[i].0) is ControlOnly)
}

/// Whether `r` is the formula of one component: its bare reading, or `None`
/// where it provides no telemetry; an error where the graph does not know it.
pub open spec fn is_component_formula(
    graph: ComponentGraph,
    id: u64,
    r: Result<String, GraphError>,
) -> bool {
    match r {
        Ok(text) => knows(graph, id) && text@ == (if has_telemetry(graph, id) {
            "#"@ + decimal(id as nat)
        } else {
            "None"@
        }),
        Err(e) => !knows(graph, id) && graph_error_text(e) == not_found(id),
    }
}

/// Whether the settings are those of `ComponentGraphConfig::default`.
pub uninterp spec fn default_settings(config: gr::ComponentGraphConfig) -> bool;

/// Calls `ComponentGraphConfig::default`. What the default settings are is left
/// to the graph's crate.
#[verifier::external_body]
pub(crate) fn default_config() -> (config: gr::ComponentGraphConfig)
    ensures
        default_settings(config),
{
    gr::ComponentGraphConfig::default()
}

impl ComponentGraph {
    /// Calls `ComponentGraph::try_new`. The graph holds the given components in
    /// their order, no two with the same ID, and the given connections, each
    /// once. Which input is refused, and why, is left to the graph's crate. More
    /// components or connections than 32 bits can number would not be refused
    /// but stop the program.
    #[verifier::external_body]
    pub(crate) fn try_new(
        components: Vec<GraphComponent>,
        connections: Vec<GraphConnection>,
        config: gr::ComponentGraphConfig,
    ) -> (r: Result<ComponentGraph, GraphError>)
        requires
            components@.len() <= GRAPH_LIMIT,
            connections@.len() <= GRAPH_LIMIT,
        ensures
            r == graph_of(components@, connections@, config),
            r matches Ok(graph) ==> graph_components(graph) == components@
                && graph_connections(graph) == ends(connections@) && distinct_ids(components@),
    {
        gr::ComponentGraph::try_new(components, connections, config).map(
            |inner| ComponentGraph { inner },
        )
    }

    /// Calls `ComponentGraph::components`, which goes through the components in
    /// the order in which they were given. No two have the same ID.
    #[verifier::external_body]
    pub(crate) fn components(&self) -> (r: Vec<GraphComponent>)
        ensures
            r@ == graph_components(*self),
            distinct_ids(r@),
    {
        self.inner.components().cloned().collect()
    }

    /// Calls `ComponentGraph::predecessors`: every component that is not looked
    /// through and from which a path leads here, each once, in an order that is
    /// not stated. The call fails where the graph does not know the ID, and
    /// there alone.
    #[verifier::external_body]
    pub(crate) fn predecessors(&self, id: u64) -> (r: Result<Vec<GraphComponent>, GraphError>)
        ensures
            r is Ok <==> knows(*self, id),
            r matches Ok(found) ==> found@.no_duplicates() && forall|c: GraphComponent|
                #[trigger] found@.contains(c) <==> is_predecessor(*self, c, id),
            r matches Err(e) ==> graph_error_text(e) == not_found(id),
    {
        self.inner.predecessors(id).map(|found| found.cloned().collect())
    }

    /// Calls `ComponentGraph::successors`: every component that is not looked
    /// through and to which a path leads from here, each once, in an order that
    /// is not stated. The call fails where the graph does not know the ID, and
    /// there alone.
    #[verifier::external_body]
    pub(crate) fn successors(&self, id: u64) -> (r: Result<Vec<GraphComponent>, GraphError>)
        ensures
            r is Ok <==> knows(*self, id),
            r matches Ok(found) ==> found@.no_duplicates() && forall|c: GraphComponent|
                #[trigger] found@.contains(c) <==> is_successor(*self, c, id),
            r matches Err(e) ==> graph_error_text(e) == not_found(id),
    {
        self.inner.successors(id).map(|found| found.cloned().collect())
    }

    /// Calls `ComponentGraph::grid_formula` and takes its text.
    #[verifier::external_body]
    pub(crate) fn grid_formula(&self) -> (r: Result<String, GraphError>)
        ensures
            formula_text(r) == grid_text(*self),
    {
        self.inner.grid_formula().map(|formula| formula.to_string())
    }

    /// Calls `ComponentGraph::consumer_formula` and takes its text.
    #[verifier::external_body]
    pub(crate) fn consumer_formula(&self) -> (r: Result<String, GraphError>)
        ensures
            formula_text(r) == consumer_text(*self),
    {
        self.inner.consumer_formula().map(|formula| formula.to_string())
    }

    /// Calls `ComponentGraph::producer_formula` and takes its text.
    #[verifier::external_body]
    pub(crate) fn producer_formula(&self) -> (r: Result<String, GraphError>)
        ensures
            formula_text(r) == producer_text(*self),
    {
        self.inner.producer_formula().map(|formula| formula.to_string())
    }

    /// Calls `ComponentGraph::battery_formula` and takes its text.
    #[verifier::external_body]
    pub(crate) fn battery_formula(&self, ids: Option<BTreeSet<u64>>) -> (r: Result<
        String,
        GraphError,
    >)
        ensures
            formula_text(r) == battery_text(*self, asked_ids(ids)),
    {
        self.inner.battery_formula(ids).map(|formula| formula.to_string())
    }

    /// Calls `ComponentGraph::chp_formula` and takes its text.
    #[verifier::external_body]
    pub(crate) fn chp_formula(&self, ids: Option<BTreeSet<u64>>) -> (r: Result<String, GraphError>)
        ensures
            formula_text(r) == chp_text(*self, asked_ids(ids)),
    {
        self.inner.chp_formula(ids).map(|formula| formula.to_string())
    }

    /// Calls `ComponentGraph::pv_formula` and takes its text.
    #[verifier::external_body]
    pub(crate) fn pv_formula(&self, ids: Option<BTreeSet<u64>>) -> (r: Result<String, GraphError>)
        ensures
            formula_text(r) == pv_text(*self, asked_ids(ids)),
    {
        self.inner.pv_formula(ids).map(|formula| formula.to_string())
    }

    /// Calls `ComponentGraph::ev_charger_formula` and takes its text.
    #[verifier::external_body]
    pub(crate) fn ev_charger_formula(&self, ids: Option<BTreeSet<u64>>) -> (r: Result<
        String,
        GraphError,
    >)
        ensures
            formula_text(r) == ev_charger_text(*self, asked_ids(ids)),
    {
        self.inner.ev_charger_formula(ids).map(|formula| formula.to_string())
    }

    /// Calls `ComponentGraph::steam_boiler_formula` and takes its text.
    #[verifier::external_body]
    pub(crate) fn steam_boiler_formula(&self, ids: Option<BTreeSet<u64>>) -> (r: Result<
        String,
        GraphError,
    >)
        ensures
            formula_text(r) == steam_boiler_text(*self, asked_ids(ids)),
    {
        self.inner.steam_boiler_formula(ids).map(|formula| formula.to_string())
    }

    /// Calls `ComponentGraph::component_formula`: the bare reading of the
    /// component, or `None` where it provides no telemetry.
    #[verifier::external_body]
    pub(crate) fn component_formula(&self, id: u64) -> (r: Result<String, GraphError>)
        ensures
            is_component_formula(*self, id, r),
    {
        self.inner.component_formula(id).map(|formula| formula.to_string())
    }

    /// Calls `ComponentGraph::grid_coalesce_formula` and takes its text.
    #[verifier::external_body]
    pub(crate) fn grid_coalesce_formula(&self) -> (r: Result<String, GraphError>)
        ensures
            formula_text(r) == grid_coalesce_text(*self),
    {
        self.inner.grid_coalesce_formula().map(|formula| formula.to_string())
    }

    /// Calls `ComponentGraph::battery_ac_coalesce_formula` and takes its text.
    #[verifier::external_body]
    pub(crate) fn battery_ac_coalesce_formula(&self, ids: Option<BTreeSet<u64>>) -> (r: Result<
        String,
        GraphError,
    >)
        ensures
            formula_text(r) == battery_coalesce_text(*self, asked_ids(ids)),
    {
        self.inner.battery_ac_coalesce_formula(ids).map(|formula| formula.to_string())
    }

    /// Calls `ComponentGraph::pv_ac_coalesce_formula` and takes its text.
    #[verifier::external_body]
    pub(crate) fn pv_ac_coalesce_formula(&self, ids: Option<BTreeSet<u64>>) -> (r: Result<
        String,
        GraphError,
    >)
        ensures
            formula_text(r) == pv_coalesce_text(*self, asked_ids(ids)),
    {
        self.inner.pv_ac_coalesce_formula(ids).map(|formula| formula.to_string())
    }

    /// Calls `ComponentGraph::component_ac_coalesce_formula`: the bare reading
    /// of the component, or `None` where it provides no telemetry.
    #[verifier::external_body]
    pub(crate) fn component_ac_coalesce_formula(&self, id: u64) -> (r: Result<String, GraphError>)
        ensures
            is_component_formula(*self, id, r),
    {
        self.inner.component_ac_coalesce_formula(id).map(|formula| formula.to_string())
    }
}

}
