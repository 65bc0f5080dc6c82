[package]
name = "memory_orchestrator"
version = "0.1.0"
edition = "2021"
publish = false

[dependencies]
async-trait = "0.1"
dunce = "1"
log = "0.4"
serde = { version = "1", features = ["derive"] }
serde_json = "1"
sha2 = "0.10"
thiserror = "1"
tokio = { version = "1", features = ["fs", "sync", "time", "rt", "macros"] }
uuid = { version = "1", features = ["v4"] }
