[package]
name = "alloy-core"
version = "0.1.0"
edition = "2021"
publish = false

[dependencies]
futures-core = "0.3"
hyper = { version = "0.14", features = ["server", "http1", "tcp", "stream"] }
once_cell = "1"
parking_lot = "0.12"
serde = { version = "1", features = ["derive"] }
serde_json = "1"
tokio = { version = "1", features = ["rt", "time"] }
