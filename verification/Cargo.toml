[package]
name = "zkbft"
version = "0.1.0"
edition = "2021"
publish = false

[dependencies]
base64 = "=0.21.7"
hex = "=0.4.3"
rand = "=0.8.8"
serde = { version = "=1.0.229", features = ["derive"] }
serde_json = "=1.0.154"
bincode = "=1.3.3"
tokio = { version = "=1.54.1", features = ["full"] }
tokio-tungstenite = "=0.24.0"
futures = "=0.3.34"
futures-util = "=0.3.34"
futures-channel = "=0.3.34"
async-trait = "=0.1.92"
log = "=0.4.35"
env_logger = "=0.11.11"
uuid = { version = "=1.29.0", features = ["v4"] }
bytes = "=1.12.1"
thiserror = "=1.0.69"
