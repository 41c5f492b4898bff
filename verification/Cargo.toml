[package]
name = "cache_hydration"
version = "0.1.0"
edition = "2021"
publish = false

[dependencies]
anyhow = "1"
futures = "0.3"
log = "0.4"
redis = { version = "*", features = ["tokio-comp", "connection-manager"] }
tokio = { version = "1", features = ["rt-multi-thread", "macros", "sync"] }
