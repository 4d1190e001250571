[package]
name = "solana_rpc_cluster"
version = "0.1.0"
edition = "2021"
publish = false

[dependencies]
anyhow = "1"
axum = { version = "0.7", features = ["ws"] }
bs58 = "=0.5.1"
bytes = "1"
chrono = "0.4"
clap = { version = "4", features = ["derive"] }
core_affinity = "0.8"
dashmap = "=6.2.1"
futures-util = "0.3"
governor = "=0.6.3"
http-body-util = "0.1"
hyper = { version = "=1.12.0", features = ["full"] }
hyper-util = { version = "0.1", features = ["full"] }
prost = "0.13"
rand = "=0.8.8"
serde = { version = "1", features = ["derive"] }
serde_json = "=1.0.154"
socket2 = { version = "0.5", features = ["all"] }
tokio = { version = "1", features = ["full"] }
tokio-stream = "0.1"
tokio-tungstenite = "0.24"
tokio-util = { version = "0.7", features = ["rt"] }
toml = "0.8"
tonic = "=0.12.3"
tracing = "0.1"
tracing-subscriber = { version = "0.3", features = ["env-filter"] }
