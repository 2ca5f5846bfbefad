[package]
name = "websocket_adapter"
version = "0.1.0"
edition = "2021"
publish = false

[dependencies]
bevy = { version = "0.17", default-features = false }
serde_json = "=1.0.154"
