[package]
name = "chain_indexer"
version = "0.1.0"
edition = "2021"
publish = false

[dependencies]
anyhow = "*"
alloy = { version = "*", default-features = false, features = ["provider-http", "rpc-types-eth"] }
chrono = { version = "*", features = ["serde"] }
serde = { version = "*", features = ["derive"] }
serde_json = "*"
serde_yaml = "*"
tokio = { version = "*", features = ["rt-multi-thread", "macros", "time", "sync", "signal"] }
