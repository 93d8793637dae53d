//! The logical meter: formulas over the metrics of components.

pub mod config;
pub mod exact;
pub mod expr;
pub mod formula;
pub mod key_map;
pub mod logical_meter_actor;
pub mod logical_meter_handle;
