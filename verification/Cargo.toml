[package]
name = "ipi"
version = "0.1.0"
edition = "2021"
publish = false

[dependencies]
tokio = { version = "*", features = ["full"] }
tokio-util = { version = "*", features = ["codec"] }
bytes = "*"
futures = "*"
serde = { version = "*", features = ["derive"] }
serde_json = "*"
fs2 = "*"
axum = "*"
