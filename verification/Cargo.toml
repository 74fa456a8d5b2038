[package]
name = "memhold"
version = "0.1.0"
edition = "2021"
publish = false

[dependencies]
axum = "0.7"
chrono = "0.4"
serde_json = "1"
tokio = { version = "1", features = ["macros", "net", "rt-multi-thread"] }
