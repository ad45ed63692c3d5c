[package]
name = "call_auction"
version = "0.1.0"
edition = "2021"
publish = false

[dependencies]
tokio = { version = "1", features = ["rt-multi-thread", "macros", "sync", "time"] }
log = "0.4"
env_logger = "0.11"
serde = { version = "1", features = ["derive"] }
