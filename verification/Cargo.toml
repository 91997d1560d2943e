[package]
name = "dex_protocol_core"
version = "0.1.0"
edition = "2021"
publish = false

[dependencies]
num-bigint = "0.4"
num-traits = "0.2"
serde = { version = "1", features = ["derive"] }
serde_json = "1"
tokio = { version = "1", features = ["macros", "rt-multi-thread", "sync"] }
warp = "0.3"
