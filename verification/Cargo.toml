[package]
name = "search_engine"
version = "0.1.0"
edition = "2021"
publish = false

[dependencies]
dashmap = "5"
serde = { version = "1", features = ["derive"] }
serde_json = "1"
sysinfo = "0.30"
tokio = { version = "1", features = ["full"] }
axum = "0.7"
tracing = "0.1"
tracing-subscriber = { version = "0.3", features = ["env-filter"] }
thiserror = "1"
