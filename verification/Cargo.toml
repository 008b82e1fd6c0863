[package]
name = "beat_ecoprove_proxy"
version = "0.1.0"
edition = "2021"
publish = false

[dependencies]
uuid = { version = "1", features = ["v4"] }
serde = { version = "1", features = ["derive"] }
serde_json = "1"
async-trait = "0.1"
log = "0.4"
env_logger = "*"
pingora = { version = "*", features = ["proxy"] }
pingora-proxy = "*"
