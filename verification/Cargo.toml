[package]
name = "ic_websocket_gateway"
version = "0.1.0"
edition = "2021"
publish = false

[dependencies]
candid = "*"
futures-util = "*"
ic-agent = "*"
serde = { version = "*", features = ["derive"] }
serde_cbor = "*"
tokio = { version = "*", features = ["full"] }
tokio-tungstenite = "*"
tracing = "*"
