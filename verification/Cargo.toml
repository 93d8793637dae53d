[package]
name = "frequenz-microgrid"
version = "0.4.0"
edition = "2021"
publish = false

[dependencies]
async-trait = "0.1"
chrono = "0.4"
fastrand = "2"
frequenz-microgrid-component-graph = "=0.6.2"
frequenz-microgrid-formula-engine = "=0.3.0"
frequenz-resampling = "0.2"
futures = "0.3"
tokio = { version = "1", features = ["macros", "rt-multi-thread", "sync", "time"] }
tonic = "0.14"
tracing = "0.1"
