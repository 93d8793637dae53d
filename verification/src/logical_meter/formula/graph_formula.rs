//! A formula generated from the component graph.

use std::marker::PhantomData;

use vstd::prelude::*;

use crate::error::{Error, ErrorKind};
use crate::metric::Metric;

verus! {

/// Marker for formulas from the aggregation (`*_formula`) graph methods.
pub struct Aggregation;

/// Marker for formulas from the coalesce (`*_coalesce_formula`) graph methods.
pub struct Coalesce;

/// A component-graph formula for metric `M`, tagged by the kind `K` of graph
/// methods that generated it.
pub struct GraphFormula<M: Metric, K> {
    formula: String,
    phantom: PhantomData<(M, K)>,
}

/// A formula that supports aggregation operations.
pub type AggregationFormula<M> = GraphFormula<M, Aggregation>;

/// A formula built from the component graph's coalesce methods.
pub type CoalesceFormula<M> = GraphFormula<M, Coalesce>;

impl<M: Metric, K> GraphFormula<M, K> {
    /// The text of the formula, as the graph wrote it.
    pub closed spec fn spec_formula(&self) -> Seq<char> {
        self.formula@
    }

    /// A formula that the graph wrote.
    pub fn new(formula: String) -> (r: Self)
        ensures
            r.spec_formula() == formula@,
    {
        GraphFormula { formula, phantom: PhantomData }
    }

    /// The text of the formula, as the graph wrote it.
    pub fn formula(&self) -> (r: &String)
        ensures
            r@ == self.spec_formula(),
    {
        &self.formula
    }

    /// The name of the metric in the API, and the formula in brackets.
    pub open spec fn spec_text(&self) -> Seq<char> {
        M::METRIC.spec_str_name() + "::("@ + self.spec_formula() + ")"@
    }

    /// The name of the metric in the API, and the formula in brackets.
    pub fn to_text(&self) -> (r: String)
        ensures
            r@ == self.spec_text(),
    {
        let mut text = String::from_str(M::METRIC.as_str_name());
        text.append("::(");
        text.append(self.formula.as_str());
        text.append(")");
        text
    }
}

/// What goes wrong between a formula and the logical-meter actor.
pub enum SubscribeFault {
    /// The actor takes no instructions, for the given reason.
    NotSent(String),
    /// The actor dropped the instruction without an answer, for the given
    /// reason.
    NotAnswered(String),
}

/// What is said of a fault.
pub open spec fn subscribe_fault_text(fault: SubscribeFault) -> Seq<char> {
    match fault {
        SubscribeFault::NotSent(reason) => "Could not send instruction: "@ + reason@,
        SubscribeFault::NotAnswered(reason) => "Could not receive instruction: "@ + reason@,
    }
}

/// The error that a fault is reported as.
pub fn subscribe_error(fault: SubscribeFault) -> (e: Error)
    ensures
        e.says(ErrorKind::ConnectionFailure, subscribe_fault_text(fault)),
{
    match fault {
        SubscribeFault::NotSent(reason) => {
            let mut text = String::from_str("Could not send instruction: ");
            text.append(reason.as_str());
            Error::connection_failure(text)
        },
        SubscribeFault::NotAnswered(reason) => {
            let mut text = String::from_str("Could not receive instruction: ");
            text.append(reason.as_str());
            Error::connection_failure(text)
        },
    }
}

}
