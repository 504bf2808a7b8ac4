[package]
name = "pokebox"
version = "0.1.0"
edition = "2021"
publish = false

[dependencies]
anyhow = "1"
dotenv = "0.15"
env_logger = "0.9"
log = "0.4"
reqwest = { version = "0.11", default-features = false }
serde = { version = "1", features = ["derive"] }
serde_json = "1"
thruster = { version = "1", features = ["hyper_server"] }
tokio = { version = "1", features = ["macros", "rt-multi-thread", "sync"] }
