[package]
name = "situ"
version = "0.1.0"
edition = "2021"
publish = false

[dependencies]
anyhow = "1"
bollard = "0.13"
env_logger = "0.9"
flowistry = "*"
futures-util = "0.3"
log = "0.4"
mdbook = { version = "0.4", default-features = false }
pulldown-cmark = "0.9"
pulldown-cmark-to-cmark = "10"
rustc_plugin = "*"
serde = { version = "1", features = ["derive"] }
serde_json = "1"
tokio = { version = "1", features = ["full"] }
tokio-tungstenite = "0.17"
ts-rs = "6"
