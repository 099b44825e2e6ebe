[package]
name = "cpu_telemetry"
version = "0.1.0"
edition = "2021"
publish = false

[dependencies]
futures = "0.3"
include_dir = "0.7"
serde_json = "1"
sysinfo = "0.29"
tokio = { version = "1", features = ["rt", "macros"] }
warp = "0.3"
