[package]
name = "rs_ec"
version = "0.1.0"
edition = "2021"
publish = false

[dependencies]
rand = "*"
serde = { version = "1", features = ["derive"] }
serde_json = "1"
tokio = { version = "1", features = ["fs", "macros", "rt-multi-thread"] }
poem = "*"
tracing = "0.1"
tracing-subscriber = "0.3"
anyhow = "1"
