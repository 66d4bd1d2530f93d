[package]
name = "swarm"
version = "0.1.0"
edition = "2021"
publish = false

[dependencies]
anyhow = "1"
async-nats = "*"
bytes = "1"
config = { version = "*", default-features = false, features = ["toml"] }
flatbuffers = "*"
futures = "0.3"
rand = "*"
serde = { version = "1", features = ["derive"] }
tokio = { version = "1", features = ["full"] }
