[package]
name = "dspatch_router"
version = "0.1.0"
edition = "2021"
publish = false

[dependencies]
serde = { version = "=1.0.229", features = ["derive"] }
serde_json = { version = "=1.0.154", features = ["raw_value"] }
tokio = { version = "=1.54.1", features = ["sync", "rt-multi-thread", "macros", "time", "net", "signal"] }
uuid = { version = "=1.29.0", features = ["v4"] }
parking_lot = "=0.12.5"
anyhow = "=1.0.104"
thiserror = "=1.0.69"
tracing = "=0.1.44"
tracing-subscriber = { version = "=0.3.23", features = ["env-filter"] }
futures = "=0.3.34"
tokio-tungstenite = "=0.30.0"
chrono = { version = "0.4", default-features = false, features = ["clock", "std"] }
