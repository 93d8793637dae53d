pub mod backoff;
pub mod bounds;
pub mod client;
pub mod component_graph;
pub mod component_pool_health_tracker;
pub mod error;
pub mod health;
pub mod ids;
pub mod logical_meter;
pub mod metric;
pub mod microgrid;
pub mod power_manager;
pub mod quantity;
pub mod single;
pub mod text;
pub mod time;
pub mod wall_clock_timer;
