//! Telemetry trackers for pools of components.
//!
//! Each tracker watches a set of components and emits a stream of snapshots
//! that part the components into healthy and unhealthy ones, carrying the
//! latest telemetry of each.

pub mod battery_pool_telemetry_tracker;
pub mod component_partition;
pub mod component_pool_telemetry_tracker;
pub mod component_telemetry_tracker;
pub mod inverter_battery_group;
pub mod pool_snapshots;
