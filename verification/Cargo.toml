[package]
name = "gbhub_stress"
version = "0.1.0"
edition = "2021"
publish = false

[dependencies]
anyhow = "1"
dashmap = "6"
encoding_rs = "0.8"
env_logger = "0.11"
hex = "0.4"
log = "0.4"
md5 = "0.7"
mimalloc = "*"
rand = "0.8"
reqwest = { version = "0.12", default-features = false, features = ["json"] }
serde_json = "1"
sha2 = "0.10"
tokio = { version = "1", features = ["full"] }
uuid = { version = "1", features = ["v4"] }
