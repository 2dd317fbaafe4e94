[package]
name = "mobiusdb_lsm"
version = "0.1.0"
edition = "2021"
publish = false

[dependencies]
anyhow = "*"
arrow = "=59.3.0"
arrow-flight = "=59.3.0"
dashmap = "=6.2.1"
datafusion = "=55.2.0"
prost = "=0.14.4"
tokio = { version = "*", features = ["full"] }
