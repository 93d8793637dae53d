//! What is asked of the power manager.

use std::collections::BTreeMap;

use vstd::prelude::*;

use crate::error::{Error, ErrorKind};
use crate::single::Single;

verus! {

/// By how much power may change at once.
#[derive(Clone, Debug, PartialEq)]
pub enum MaxRampPower {
    /// All components together.
    Cumulative(Single),
    /// Each component.
    PerComponent(BTreeMap<u64, Single>),
}

/// What is asked of the power manager.
#[derive(Clone, Debug, PartialEq)]
pub enum Instruction {
    /// Power for components, unless somebody with a higher priority proposes
    /// otherwise.
    ProposePower {
        component_ids: Vec<u64>,
        power: Single,
        priority: i64,
        max_ramp_power: Option<MaxRampPower>,
    },
}

/// The instruction that proposes power for components.
pub fn propose_power(
    component_ids: Vec<u64>,
    power: Single,
    priority: i64,
    max_ramp_power: Option<MaxRampPower>,
) -> (r: Instruction)
    ensures
        r == (Instruction::ProposePower { component_ids, power, priority, max_ramp_power }),
{
    Instruction::ProposePower { component_ids, power, priority, max_ramp_power }
}

/// The error where the power manager takes no instructions, for the given
/// reason.
pub fn not_sent(reason: &str) -> (e: Error)
    ensures
        e.says(ErrorKind::Internal, "Failed to send instruction: "@ + reason@),
{
    let mut text = String::from_str("Failed to send instruction: ");
    text.append(reason);
    Error::internal(text)
}

}
