//! What a handle sends to the client actor, and what it answers where the actor
//! cannot be reached.

use chrono::TimeDelta;
use vstd::prelude::*;

use crate::bounds::{api_bounds, to_api, Bounds};
use crate::client::microgrid_client_actor::Instruction;
use crate::client::proto;
use crate::error::{Error, ErrorKind};
use crate::metric::Metric;

verus! {

/// Each of `bounds` as the API takes it, in the same order.
pub open spec fn all_api_bounds(bounds: Seq<Bounds>) -> Seq<proto::Bounds> {
    bounds.map_values(|b: Bounds| api_bounds(b))
}

/// The instruction to augment the bounds of metric `M` of a component.
pub fn augment_electrical_component_bounds<M: Metric>(
    electrical_component_id: u64,
    bounds: &Vec<Bounds>,
    request_lifetime: Option<TimeDelta>,
) -> (instruction: Instruction)
    ensures
        instruction matches Instruction::AugmentElectricalComponentBounds {
            electrical_component_id: id,
            target_metric,
            bounds: sent,
            request_lifetime: lifetime,
        } && id == electrical_component_id && target_metric == M::METRIC && sent@
            == all_api_bounds(bounds@) && lifetime == request_lifetime,
{
    let mut sent: Vec<proto::Bounds> = Vec::new();
    let mut i: usize = 0;
    while i < bounds.len()
        invariant
            i <= bounds.len(),
            sent@ == all_api_bounds(bounds@.take(i as int)),
        decreases bounds.len() - i,
    {
        sent.push(to_api(&bounds[i]));
        i = i + 1;
        assert(sent@ =~= all_api_bounds(bounds@.take(i as int)));
    }
    assert(bounds@.take(bounds@.len() as int) =~= bounds@);
    Instruction::AugmentElectricalComponentBounds {
        electrical_component_id,
        target_metric: M::METRIC,
        bounds: sent,
        request_lifetime,
    }
}

/// What goes wrong between a handle and the client actor.
pub enum HandleFault {
    /// The actor takes no instructions.
    NotSent,
    /// The actor dropped the instruction without an answer, for the given
    /// reason.
    NotAnswered(String),
    /// The URL of the API is not valid, for the given reason.
    InvalidUrl { url: String, reason: String },
}

/// The kind of error that a fault is reported as.
pub open spec fn fault_kind(fault: HandleFault) -> ErrorKind {
    match fault {
        HandleFault::NotSent => ErrorKind::Internal,
        HandleFault::NotAnswered(_) => ErrorKind::Internal,
        HandleFault::InvalidUrl { .. } => ErrorKind::ConnectionFailure,
    }
}

/// What is said of a fault.
pub open spec fn fault_text(fault: HandleFault) -> Seq<char> {
    match fault {
        HandleFault::NotSent => "failed to send instruction"@,
        HandleFault::NotAnswered(reason) => "failed to receive response: "@ + reason@,
        HandleFault::InvalidUrl { url, reason } => "Invalid microgrid API URL "@ + url@ + ": "@
            + reason@,
    }
}

/// The error that a fault is reported as.
pub fn fault_error(fault: HandleFault) -> (e: Error)
    ensures
        e.says(fault_kind(fault), fault_text(fault)),
{
    match fault {
        HandleFault::NotSent => Error::internal(String::from_str("failed to send instruction")),
        HandleFault::NotAnswered(reason) => {
            let mut text = String::from_str("failed to receive response: ");
            text.append(reason.as_str());
            Error::internal(text)
        },
        HandleFault::InvalidUrl { url, reason } => {
            let mut text = String::from_str("Invalid microgrid API URL ");
            text.append(url.as_str());
            text.append(": ");
            text.append(reason.as_str());
            Error::connection_failure(text)
        },
    }
}

/// All bounds are sent, in their order, each with its own ends.
pub proof fn law_all_bounds_are_sent(bounds: Seq<Bounds>, i: int)
    requires
        0 <= i < bounds.len(),
    ensures
        all_api_bounds(bounds).len() == bounds.len(),
        all_api_bounds(bounds)[i] == api_bounds(bounds[i]),
{
}

/// Only a URL that is not valid is a failure to connect.
pub proof fn law_kinds_of_faults(fault: HandleFault)
    ensures
        fault is InvalidUrl <==> fault_kind(fault) == ErrorKind::ConnectionFailure,
        fault is InvalidUrl || fault_kind(fault) == ErrorKind::Internal,
{
}

}
