[package]
name = "chain_worker"
version = "0.1.0"
edition = "2021"
publish = false

[dependencies]
tokio = { version = "1", features = ["sync", "rt"] }
bcs = "0.1"
serde = { version = "1", features = ["derive"] }
log = "0.4"
