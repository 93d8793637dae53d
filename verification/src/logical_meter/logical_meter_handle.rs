//! The formulas that a logical meter offers, and the graph they come from.

use std::collections::BTreeSet;

use frequenz_microgrid_component_graph as gr;
use frequenz_microgrid_component_graph::Error as GraphError;
use vstd::prelude::*;

use crate::client::proto::graph::{GraphComponent, GraphConnection};
use crate::client::proto::{ElectricalComponent, ElectricalComponentConnection};
use crate::component_graph::{
    asked_ids, battery_coalesce_text, battery_text, chp_text, consumer_text, ev_charger_text,
    graph_of, grid_coalesce_text, grid_text, has_telemetry, knows, not_found, producer_text,
    pv_coalesce_text, pv_text, steam_boiler_text, ComponentGraph, GRAPH_LIMIT,
};
use crate::error::{describe_graph_error, graph_error_text, Error, ErrorKind};
use crate::logical_meter::expr::{tree_of, Expr};
use crate::logical_meter::formula::{tag_components, tagged, Formula};
use crate::metric::{FormulaKind, Metric};
use crate::quantity::Quantity;
use crate::text::decimal;

verus! {

/// Which component-graph formula a handle method asks for.
pub enum GraphRequest {
    Grid,
    Consumer,
    Producer,
    Battery(Option<BTreeSet<u64>>),
    Chp(Option<BTreeSet<u64>>),
    Pv(Option<BTreeSet<u64>>),
    EvCharger(Option<BTreeSet<u64>>),
    SteamBoiler(Option<BTreeSet<u64>>),
    Component(u64),
}

impl GraphRequest {
    /// The name of what is asked for.
    pub open spec fn spec_name(&self) -> Seq<char> {
        match self {
            GraphRequest::Grid => "grid"@,
            GraphRequest::Consumer => "consumer"@,
            GraphRequest::Producer => "producer"@,
            GraphRequest::Battery(_) => "battery"@,
            GraphRequest::Chp(_) => "chp"@,
            GraphRequest::Pv(_) => "pv"@,
            GraphRequest::EvCharger(_) => "ev_charger"@,
            GraphRequest::SteamBoiler(_) => "steam_boiler"@,
            GraphRequest::Component(_) => "component"@,
        }
    }

    /// The name of what is asked for.
    pub fn name(&self) -> (name: &'static str)
        ensures
            name@ == self.spec_name(),
    {
        match self {
            GraphRequest::Grid => "grid",
            GraphRequest::Consumer => "consumer",
            GraphRequest::Producer => "producer",
            GraphRequest::Battery(_) => "battery",
            GraphRequest::Chp(_) => "chp",
            GraphRequest::Pv(_) => "pv",
            GraphRequest::EvCharger(_) => "ev_charger",
            GraphRequest::SteamBoiler(_) => "steam_boiler",
            GraphRequest::Component(_) => "component",
        }
    }
}

/// The text of a formula, or the text of the error in its place.
pub open spec fn described(r: Result<Seq<char>, GraphError>) -> Result<Seq<char>, Seq<char>> {
    match r {
        Ok(text) => Ok(text),
        Err(e) => Err(graph_error_text(e)),
    }
}

/// The text of the formula of one component: its bare reading, or `None` where
/// it provides no telemetry; an error where the graph does not know it.
pub open spec fn component_text(graph: ComponentGraph, id: u64) -> Result<Seq<char>, Seq<char>> {
    if !knows(graph, id) {
        Err(not_found(id))
    } else if has_telemetry(graph, id) {
        Ok("#"@ + decimal(id as nat))
    } else {
        Ok("None"@)
    }
}

/// What the graph generates for `request`. Nothing, where it has no such
/// formula for metrics of the kind: a metric that is not summed has one for the
/// grid, batteries, PV and single components only.
pub open spec fn generated(
    graph: ComponentGraph,
    kind: FormulaKind,
    request: GraphRequest,
) -> Option<Result<Seq<char>, Seq<char>>> {
    match (kind, request) {
        (FormulaKind::Aggregation, GraphRequest::Grid) => Some(described(grid_text(graph))),
        (FormulaKind::Aggregation, GraphRequest::Consumer) => Some(described(consumer_text(graph))),
        (FormulaKind::Aggregation, GraphRequest::Producer) => Some(described(producer_text(graph))),
        (FormulaKind::Aggregation, GraphRequest::Battery(ids)) => Some(
            described(battery_text(graph, asked_ids(ids))),
        ),
        (FormulaKind::Aggregation, GraphRequest::Chp(ids)) => Some(
            described(chp_text(graph, asked_ids(ids))),
        ),
        (FormulaKind::Aggregation, GraphRequest::Pv(ids)) => Some(
            described(pv_text(graph, asked_ids(ids))),
        ),
        (FormulaKind::Aggregation, GraphRequest::EvCharger(ids)) => Some(
            described(ev_charger_text(graph, asked_ids(ids))),
        ),
        (FormulaKind::Aggregation, GraphRequest::SteamBoiler(ids)) => Some(
            described(steam_boiler_text(graph, asked_ids(ids))),
        ),
        (FormulaKind::Aggregation, GraphRequest::Component(id)) => Some(component_text(graph, id)),
        (FormulaKind::Coalesce, GraphRequest::Grid) => Some(described(grid_coalesce_text(graph))),
        (FormulaKind::Coalesce, GraphRequest::Battery(ids)) => Some(
            described(battery_coalesce_text(graph, asked_ids(ids))),
        ),
        (FormulaKind::Coalesce, GraphRequest::Pv(ids)) => Some(
            described(pv_coalesce_text(graph, asked_ids(ids))),
        ),
        (FormulaKind::Coalesce, GraphRequest::Component(id)) => Some(component_text(graph, id)),
        (FormulaKind::Coalesce, _) => None,
    }
}

fn unsupported(name: &str, metric: &str) -> (e: Error)
    ensures
        e.says(
            ErrorKind::ComponentGraphError,
            "The component graph does not support "@ + name@ + " formula generation for "@ + metric@
                + "."@,
        ),
{
    let mut text = String::from_str("The component graph does not support ");
    text.append(name);
    text.append(" formula generation for ");
    text.append(metric);
    text.append(".");
    Error::component_graph_error(text)
}

/// Asks the graph for the text of the formula selected by the kind of `M` and
/// by `request`.
pub fn graph_formula<M: Metric>(graph: &ComponentGraph, request: GraphRequest) -> (r: Result<
    String,
    Error,
>)
    ensures
        match generated(*graph, M::KIND, request) {
            None => r matches Err(e) && e.says(
                ErrorKind::ComponentGraphError,
                "The component graph does not support "@ + request.spec_name()
                    + " formula generation for "@ + M::spec_str_name() + "."@,
            ),
            Some(Err(reason)) => r matches Err(e) && e.says(
                ErrorKind::ComponentGraphError,
                "Could not get "@ + request.spec_name() + " formula: "@ + reason,
            ),
            Some(Ok(formula)) => r matches Ok(text) && text@ == formula,
        },
{
    let name = request.name();
    let result = match M::KIND {
        FormulaKind::Aggregation => match request {
            GraphRequest::Grid => graph.grid_formula(),
            GraphRequest::Consumer => graph.consumer_formula(),
            GraphRequest::Producer => graph.producer_formula(),
            GraphRequest::Battery(ids) => graph.battery_formula(ids),
            GraphRequest::Chp(ids) => graph.chp_formula(ids),
            GraphRequest::Pv(ids) => graph.pv_formula(ids),
            GraphRequest::EvCharger(ids) => graph.ev_charger_formula(ids),
            GraphRequest::SteamBoiler(ids) => graph.steam_boiler_formula(ids),
            GraphRequest::Component(id) => graph.component_formula(id),
        },
        FormulaKind::Coalesce => match request {
            GraphRequest::Grid => graph.grid_coalesce_formula(),
            GraphRequest::Battery(ids) => graph.battery_ac_coalesce_formula(ids),
            GraphRequest::Pv(ids) => graph.pv_ac_coalesce_formula(ids),
            GraphRequest::Component(id) => graph.component_ac_coalesce_formula(id),
            _ => {
                return Err(unsupported(name, M::str_name()));
            },
        },
    };
    match result {
        Ok(text) => Ok(text),
        Err(e) => {
            let mut text = String::from_str("Could not get ");
            text.append(name);
            text.append(" formula: ");
            text.append(describe_graph_error(&e).as_str());
            Err(Error::component_graph_error(text))
        },
    }
}

/// The formula of `M` that a parsed graph formula stands for: every component
/// leaf is tagged with the metric. `parsed` is the expression of the text that
/// [`graph_formula`] gave, or why it could not be parsed.
pub fn formula<M: Metric, Q: Quantity>(parsed: Result<Expr<u64>, String>) -> (r: Result<
    Formula<Q>,
    Error,
>)
    ensures
        match parsed {
            Ok(expr) => r matches Ok(formula) && formula.tree() == tagged(tree_of(expr), M::METRIC),
            Err(reason) => r matches Err(e) && e.says(
                ErrorKind::FormulaEngineError,
                "Failed to parse formula: "@ + reason@,
            ),
        },
{
    match parsed {
        Ok(expr) => Ok(Formula::new(tag_components(expr, M::METRIC))),
        Err(reason) => {
            let mut text = String::from_str("Failed to parse formula: ");
            text.append(reason.as_str());
            Err(Error::formula_engine_error(text))
        },
    }
}

/// The given components, as nodes of the graph.
pub open spec fn nodes(components: Seq<ElectricalComponent>) -> Seq<GraphComponent> {
    components.map_values(|c: ElectricalComponent| GraphComponent(c))
}

/// The given connections, as edges of the graph.
pub open spec fn edges(connections: Seq<ElectricalComponentConnection>) -> Seq<GraphConnection> {
    connections.map_values(|c: ElectricalComponentConnection| GraphConnection(c))
}

fn to_nodes(components: &Vec<ElectricalComponent>) -> (r: Vec<GraphComponent>)
    ensures
        r@ == nodes(components@),
{
    let mut r: Vec<GraphComponent> = Vec::new();
    let mut i: usize = 0;
    while i < components.len()
        invariant
            i <= components.len(),
            r@ == nodes(components@).take(i as int),
        decreases components.len() - i,
    {
        r.push(GraphComponent(components[i]));
        assert(r@ =~= nodes(components@).take(i + 1));
        i = i + 1;
    }
    assert(nodes(components@).take(components@.len() as int) =~= nodes(components@));
    r
}

fn to_edges(connections: &Vec<ElectricalComponentConnection>) -> (r: Vec<GraphConnection>)
    ensures
        r@ == edges(connections@),
{
    let mut r: Vec<GraphConnection> = Vec::new();
    let mut i: usize = 0;
    while i < connections.len()
        invariant
            i <= connections.len(),
            r@ == edges(connections@).take(i as int),
        decreases connections.len() - i,
    {
        r.push(GraphConnection(connections[i]));
        assert(r@ =~= edges(connections@).take(i + 1));
        i = i + 1;
    }
    assert(edges(connections@).take(connections@.len() as int) =~= edges(connections@));
    r
}

fn reason(prefix: &str, text: &str) -> (r: String)
    ensures
        r@ == prefix@ + text@,
{
    let mut r = String::from_str(prefix);
    r.append(text);
    r
}

/// Builds the component graph from the components and connections that the API
/// listed. Whatever failed is told with a prefix that says which step it was.
pub fn build_component_graph(
    components: Result<Vec<ElectricalComponent>, Error>,
    connections: Result<Vec<ElectricalComponentConnection>, Error>,
    config: gr::ComponentGraphConfig,
) -> (r: Result<ComponentGraph, String>)
    requires
        components matches Ok(list) ==> list@.len() <= GRAPH_LIMIT,
        connections matches Ok(list) ==> list@.len() <= GRAPH_LIMIT,
    ensures
        match (components, connections) {
            (Err(e), _) => r matches Err(text) && text@ == "fetching components failed: "@
                + e.spec_text(),
            (Ok(_), Err(e)) => r matches Err(text) && text@
                == "fetching component connections failed: "@ + e.spec_text(),
            (Ok(components), Ok(connections)) => match graph_of(
                nodes(components@),
                edges(connections@),
                config,
            ) {
                Ok(graph) => r == Ok::<ComponentGraph, String>(graph),
                Err(e) => r matches Err(text) && text@ == "building component graph failed: "@
                    + graph_error_text(e),
            },
        },
{
    let components = match components {
        Ok(components) => components,
        Err(e) => {
            return Err(reason("fetching components failed: ", e.to_text().as_str()));
        },
    };
    let connections = match connections {
        Ok(connections) => connections,
        Err(e) => {
            return Err(reason("fetching component connections failed: ", e.to_text().as_str()));
        },
    };
    match ComponentGraph::try_new(to_nodes(&components), to_edges(&connections), config) {
        Ok(graph) => Ok(graph),
        Err(e) => {
            Err(reason("building component graph failed: ", describe_graph_error(&e).as_str()))
        },
    }
}

/// The wait before the graph is built again, after an attempt failed, in
/// seconds.
pub const RETRY_DELAY_SECS: u64 = 3;

/// What to do after an attempt to set up the logical meter.
pub enum SetupStep {
    /// Go on with the graph.
    Ready(ComponentGraph),
    /// Tell the reason, wait so many seconds and try again.
    RetryAfter(u64, String),
}

/// What to do after an attempt to build the graph: attempts are repeated until
/// one succeeds.
pub fn setup_step(attempt: Result<ComponentGraph, String>) -> (step: SetupStep)
    ensures
        step == (match attempt {
            Ok(graph) => SetupStep::Ready(graph),
            Err(reason) => SetupStep::RetryAfter(RETRY_DELAY_SECS, reason),
        }),
{
    match attempt {
        Ok(graph) => SetupStep::Ready(graph),
        Err(reason) => SetupStep::RetryAfter(RETRY_DELAY_SECS, reason),
    }
}

/// Whether `r` is what becomes of `request` for the metric `M`: the error of
/// the graph, or the formula that `parse` makes of the graph's text.
pub open spec fn answers<M: Metric, Q: Quantity, P: Fn(String) -> Result<Expr<u64>, String>>(
    graph: ComponentGraph,
    request: GraphRequest,
    parse: P,
    r: Result<Formula<Q>, Error>,
) -> bool {
    match generated(graph, M::KIND, request) {
        None => r matches Err(e) && e.says(
            ErrorKind::ComponentGraphError,
            "The component graph does not support "@ + request.spec_name()
                + " formula generation for "@ + M::spec_str_name() + "."@,
        ),
        Some(Err(reason)) => r matches Err(e) && e.says(
            ErrorKind::ComponentGraphError,
            "Could not get "@ + request.spec_name() + " formula: "@ + reason,
        ),
        Some(Ok(formula)) => exists|text: String, parsed: Result<Expr<u64>, String>|
            text@ == formula && #[trigger] call_ensures(parse, (text,), parsed) && (match parsed {
                Ok(expr) => r matches Ok(f) && f.tree() == tagged(tree_of(expr), M::METRIC),
                Err(reason) => r matches Err(e) && e.says(
                    ErrorKind::FormulaEngineError,
                    "Failed to parse formula: "@ + reason@,
                ),
            }),
    }
}

/// Offers formulas over the components of a microgrid.
///
/// The graph writes a formula as text; `parse` reads such a text.
pub struct LogicalMeterHandle {
    graph: ComponentGraph,
}

impl LogicalMeterHandle {
    /// The component graph.
    pub closed spec fn spec_graph(&self) -> ComponentGraph {
        self.graph
    }

    /// A handle over the given graph.
    pub fn new(graph: ComponentGraph) -> (r: Self)
        ensures
            r.spec_graph() == graph,
    {
        LogicalMeterHandle { graph }
    }

    /// The component graph.
    pub fn graph(&self) -> (r: &ComponentGraph)
        ensures
            *r == self.spec_graph(),
    {
        &self.graph
    }

    /// Asks the graph for the formula selected by the kind of `M` and by
    /// `request`, parses it, and tags every component leaf with the metric.
    pub fn formula<M: Metric, Q: Quantity, P: Fn(String) -> Result<Expr<u64>, String>>(
        &self,
        request: GraphRequest,
        parse: &P,
    ) -> (r: Result<Formula<Q>, Error>)
        requires
            forall|text: String| #[trigger] call_requires(*parse, (text,)),
        ensures
            answers::<M, Q, P>(self.spec_graph(), request, *parse, r),
    {
        match graph_formula::<M>(&self.graph, request) {
            Ok(text) => formula::<M, Q>(parse(text)),
            Err(e) => Err(e),
        }
    }

    /// A formula at the grid connection point.
    pub fn grid<M: Metric, Q: Quantity, P: Fn(String) -> Result<Expr<u64>, String>>(
        &self,
        parse: &P,
    ) -> (r: Result<Formula<Q>, Error>)
        requires
            forall|text: String| #[trigger] call_requires(*parse, (text,)),
        ensures
            answers::<M, Q, P>(self.spec_graph(), GraphRequest::Grid, *parse, r),
    {
        self.formula::<M, Q, P>(GraphRequest::Grid, parse)
    }

    /// A formula of the logical consumer in the microgrid.
    pub fn consumer<M: Metric, Q: Quantity, P: Fn(String) -> Result<Expr<u64>, String>>(
        &self,
        parse: &P,
    ) -> (r: Result<Formula<Q>, Error>)
        requires
            forall|text: String| #[trigger] call_requires(*parse, (text,)),
        ensures
            answers::<M, Q, P>(self.spec_graph(), GraphRequest::Consumer, *parse, r),
    {
        self.formula::<M, Q, P>(GraphRequest::Consumer, parse)
    }

    /// A formula of the logical producer in the microgrid.
    pub fn producer<M: Metric, Q: Quantity, P: Fn(String) -> Result<Expr<u64>, String>>(
        &self,
        parse: &P,
    ) -> (r: Result<Formula<Q>, Error>)
        requires
            forall|text: String| #[trigger] call_requires(*parse, (text,)),
        ensures
            answers::<M, Q, P>(self.spec_graph(), GraphRequest::Producer, *parse, r),
    {
        self.formula::<M, Q, P>(GraphRequest::Producer, parse)
    }

    /// A formula over the given batteries, or all of them.
    pub fn battery<M: Metric, Q: Quantity, P: Fn(String) -> Result<Expr<u64>, String>>(
        &self,
        component_ids: Option<BTreeSet<u64>>,
        parse: &P,
    ) -> (r: Result<Formula<Q>, Error>)
        requires
            forall|text: String| #[trigger] call_requires(*parse, (text,)),
        ensures
            answers::<M, Q, P>(self.spec_graph(), GraphRequest::Battery(component_ids), *parse, r),
    {
        self.formula::<M, Q, P>(GraphRequest::Battery(component_ids), parse)
    }

    /// A formula over the given CHPs, or all of them.
    pub fn chp<M: Metric, Q: Quantity, P: Fn(String) -> Result<Expr<u64>, String>>(
        &self,
        component_ids: Option<BTreeSet<u64>>,
        parse: &P,
    ) -> (r: Result<Formula<Q>, Error>)
        requires
            forall|text: String| #[trigger] call_requires(*parse, (text,)),
        ensures
            answers::<M, Q, P>(self.spec_graph(), GraphRequest::Chp(component_ids), *parse, r),
    {
        self.formula::<M, Q, P>(GraphRequest::Chp(component_ids), parse)
    }

    /// A formula over the given PV inverters, or all of them.
    pub fn pv<M: Metric, Q: Quantity, P: Fn(String) -> Result<Expr<u64>, String>>(
        &self,
        component_ids: Option<BTreeSet<u64>>,
        parse: &P,
    ) -> (r: Result<Formula<Q>, Error>)
        requires
            forall|text: String| #[trigger] call_requires(*parse, (text,)),
        ensures
            answers::<M, Q, P>(self.spec_graph(), GraphRequest::Pv(component_ids), *parse, r),
    {
        self.formula::<M, Q, P>(GraphRequest::Pv(component_ids), parse)
    }

    /// A formula over the given EV chargers, or all of them.
    pub fn ev_charger<M: Metric, Q: Quantity, P: Fn(String) -> Result<Expr<u64>, String>>(
        &self,
        component_ids: Option<BTreeSet<u64>>,
        parse: &P,
    ) -> (r: Result<Formula<Q>, Error>)
        requires
            forall|text: String| #[trigger] call_requires(*parse, (text,)),
        ensures
            answers::<M, Q, P>(self.spec_graph(), GraphRequest::EvCharger(component_ids), *parse, r),
    {
        self.formula::<M, Q, P>(GraphRequest::EvCharger(component_ids), parse)
    }

    /// A formula over the given steam boilers, or all of them.
    pub fn steam_boiler<M: Metric, Q: Quantity, P: Fn(String) -> Result<Expr<u64>, String>>(
        &self,
        component_ids: Option<BTreeSet<u64>>,
        parse: &P,
    ) -> (r: Result<Formula<Q>, Error>)
        requires
            forall|text: String| #[trigger] call_requires(*parse, (text,)),
        ensures
            answers::<M, Q, P>(
                self.spec_graph(),
                GraphRequest::SteamBoiler(component_ids),
                *parse,
                r,
            ),
    {
        self.formula::<M, Q, P>(GraphRequest::SteamBoiler(component_ids), parse)
    }

    /// A formula of the given component. For a component whose operational mode
    /// provides no telemetry, the formula has no reading.
    pub fn component<M: Metric, Q: Quantity, P: Fn(String) -> Result<Expr<u64>, String>>(
        &self,
        component_id: u64,
        parse: &P,
    ) -> (r: Result<Formula<Q>, Error>)
        requires
            forall|text: String| #[trigger] call_requires(*parse, (text,)),
        ensures
            answers::<M, Q, P>(self.spec_graph(), GraphRequest::Component(component_id), *parse, r),
    {
        self.formula::<M, Q, P>(GraphRequest::Component(component_id), parse)
    }
}

/// Of a metric that is summed the graph has a formula for every request. Of others
/// it has none for consumers, producers, CHPs, EV chargers and steam boilers.
pub proof fn law_what_the_graph_has_formulas_for(
    graph: ComponentGraph,
    kind: FormulaKind,
    request: GraphRequest,
)
    ensures
        generated(graph, kind, request) is None <==> kind is Coalesce && (request is Consumer
            || request is Producer || request is Chp || request is EvCharger
            || request is SteamBoiler),
{
}

/// The formula of a metric that is summed is the graph's own for the request, over
/// the components that were asked for.
pub proof fn law_sums_come_from_the_graph(graph: ComponentGraph, ids: Option<BTreeSet<u64>>)
    ensures
        ({
            let kind = FormulaKind::Aggregation;
            let asked = asked_ids(ids);
            &&& is_text_of(generated(graph, kind, GraphRequest::Grid), grid_text(graph))
            &&& is_text_of(generated(graph, kind, GraphRequest::Consumer), consumer_text(graph))
            &&& is_text_of(generated(graph, kind, GraphRequest::Producer), producer_text(graph))
            &&& is_text_of(
                generated(graph, kind, GraphRequest::Battery(ids)),
                battery_text(graph, asked),
            )
            &&& is_text_of(generated(graph, kind, GraphRequest::Chp(ids)), chp_text(graph, asked))
            &&& is_text_of(generated(graph, kind, GraphRequest::Pv(ids)), pv_text(graph, asked))
            &&& is_text_of(
                generated(graph, kind, GraphRequest::EvCharger(ids)),
                ev_charger_text(graph, asked),
            )
            &&& is_text_of(
                generated(graph, kind, GraphRequest::SteamBoiler(ids)),
                steam_boiler_text(graph, asked),
            )
        }),
{
}

/// The formula of a metric that is not summed is the graph's formula of the first
/// component that has a reading.
pub proof fn law_other_formulas_take_the_first_reading(
    graph: ComponentGraph,
    ids: Option<BTreeSet<u64>>,
)
    ensures
        ({
            let kind = FormulaKind::Coalesce;
            let asked = asked_ids(ids);
            &&& is_text_of(generated(graph, kind, GraphRequest::Grid), grid_coalesce_text(graph))
            &&& is_text_of(
                generated(graph, kind, GraphRequest::Battery(ids)),
                battery_coalesce_text(graph, asked),
            )
            &&& is_text_of(
                generated(graph, kind, GraphRequest::Pv(ids)),
                pv_coalesce_text(graph, asked),
            )
        }),
{
}

/// Whether `answer` is the text that the graph gave, or what is said of the error
/// that it gave.
pub open spec fn is_text_of(
    answer: Option<Result<Seq<char>, Seq<char>>>,
    given: Result<Seq<char>, GraphError>,
) -> bool {
    match given {
        Ok(text) => answer == Some(Ok::<Seq<char>, Seq<char>>(text)),
        Err(e) => answer == Some(Err::<Seq<char>, Seq<char>>(graph_error_text(e))),
    }
}

/// The formula of one component is its reading, whatever the metric's kind, where
/// the graph knows the component and it has telemetry.
pub proof fn law_a_component_is_read_by_its_id(
    graph: ComponentGraph,
    kind: FormulaKind,
    id: u64,
)
    ensures
        generated(graph, kind, GraphRequest::Component(id)) matches Some(answer) && {
            &&& answer is Err <==> !knows(graph, id)
            &&& knows(graph, id) && has_telemetry(graph, id) ==> answer == Ok::<
                Seq<char>,
                Seq<char>,
            >(seq!['#'] + decimal(id as nat))
            &&& knows(graph, id) && !has_telemetry(graph, id) ==> answer == Ok::<
                Seq<char>,
                Seq<char>,
            >(seq!['N', 'o', 'n', 'e'])
        },
{
    reveal_strlit("#");
    reveal_strlit("None");
    assert("#"@ =~= seq!['#']);
    assert("None"@ =~= seq!['N', 'o', 'n', 'e']);
}

/// The graph is built of all components and all connections, in their order.
pub proof fn law_the_graph_has_all_components(
    components: Seq<ElectricalComponent>,
    connections: Seq<ElectricalComponentConnection>,
    i: int,
)
    ensures
        nodes(components).len() == components.len(),
        edges(connections).len() == connections.len(),
        0 <= i < components.len() ==> nodes(components)[i].0 == components[i],
        0 <= i < connections.len() ==> edges(connections)[i].0 == connections[i],
{
}

}
