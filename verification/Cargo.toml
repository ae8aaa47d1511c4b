[package]
name = "kod_core"
version = "0.1.0"
edition = "2021"
publish = false

[dependencies]
serde = { version = "=1.0.229", features = ["derive"] }
serde_json = "=1.0.154"
tokio = { version = "=1.54.1", features = ["process", "time", "rt", "macros", "sync"] }
uuid = "=1.29.0"
dirs = "=5.0.1"
thiserror = "=1.0.69"
tracing = "=0.1.44"
parking_lot = "0.12"
typesafe-ai-rs = "*"

[dev-dependencies]
tempfile = "=3.27.0"
