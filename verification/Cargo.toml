[package]
name = "gcxm_core"
version = "0.1.0"
edition = "2021"
publish = false

[dependencies]
im = "*"
chrono = "*"
serde = { version = "*", features = ["derive"] }
serde_json = "*"
axum = "*"
dashmap = "*"
tokio = { version = "*", features = ["full"] }
anyhow = "*"
