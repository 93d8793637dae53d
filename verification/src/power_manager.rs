//! The power manager: proposals of power for components.

pub mod algorithm;
pub mod instruction;
