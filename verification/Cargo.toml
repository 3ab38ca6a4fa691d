[package]
name = "qubit"
version = "0.1.0"
edition = "2021"
publish = false

[dependencies]
serde_qs = "0.13"
urlencoding = "2"
ts-rs = "11"
serde = { version = "1", features = ["derive"] }
serde_json = "1"
jsonrpsee = { version = "0.25", features = ["server"] }
futures = "0.3"
http = "1"
tower = "0.5"
axum = "0.8"
linkme = "0.3"
lazy_static = "1"

[dev-dependencies]
tokio = { version = "1", features = ["macros", "rt-multi-thread"] }
