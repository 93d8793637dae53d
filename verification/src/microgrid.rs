//! Pools of components: their members, telemetry and bounds.

pub mod battery_pool;
pub mod battery_pool_formulas;
pub mod bounds_aggregation;
pub mod latest;
pub mod pool_bounds;
pub mod pool_readings;
pub mod pool_tracking;
pub mod pool_validation;
pub mod pool_values;
pub mod pv_pool;
pub mod steam_boiler_pool;
pub mod telemetry_tracker;
