[package]
name = "punch"
version = "0.1.0"
edition = "2021"
publish = false

[dependencies]
chrono = { version = "0.4", default-features = false, features = ["clock", "std"] }
uuid = { version = "1", features = ["v4"] }
tokio = { version = "1", features = ["sync", "time", "rt", "macros"] }
serde = { version = "1", features = ["derive"] }
serde_json = "1"
toml = "*"
dashmap = "*"
tracing = "0.1"
async-trait = "0.1"
libc = "0.2"
reqwest = { version = "0.12", default-features = false }
