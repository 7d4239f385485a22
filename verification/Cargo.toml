[package]
name = "testnet"
version = "0.1.0"
edition = "2021"
publish = false

[dependencies]
alloy-primitives = "=1.7.3"
alloy-rpc-types = "=2.5.0"
alloy-sol-types = "=1.7.3"
anyhow = "=1.0.104"
axum = "=0.8.9"
clap = { version = "=4.6.7", features = ["derive"] }
reqwest = { version = "=0.13.5", default-features = false }
tokio = { version = "=1.54.1", features = ["full"] }

[dev-dependencies]
serde_json = "=1.0.154"
