[package]
name = "tunnel_proxy"
version = "0.1.0"
edition = "2021"
publish = false

[dependencies]
anyhow = "*"
bytes = "*"
chrono = "=0.4.45"
dashmap = "*"
futures-util = "*"
rand = "=0.8.8"
serde = { version = "*", features = ["derive"] }
serde_json = "*"
tokio = { version = "*", features = ["full"] }
tokio-tungstenite = "*"
tracing-subscriber = "*"
warp = { version = "=0.4.3", features = ["server"] }
