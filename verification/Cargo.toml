[package]
name = "callbreak"
version = "0.1.0"
edition = "2021"
publish = false

[dependencies]
rand = "0.9"
serde = { version = "1", features = ["derive"] }
serde_json = "1"
tungstenite = "0.26"
axum = { version = "0.8", features = ["ws"] }
tokio = { version = "1", features = ["full"] }
futures = "0.3"
