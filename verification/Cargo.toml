[package]
name = "anytalk-daemon"
version = "0.1.0"
edition = "2021"
publish = false

[dependencies]
cpal = "0.15"
env_logger = "0.11"
futures-util = "0.3"
log = "0.4"
rustls = { version = "0.23", default-features = false, features = ["ring", "std", "tls12"] }
serde = { version = "1", features = ["derive"] }
serde_json = "1"
tokio = { version = "1", features = ["full"] }
tokio-tungstenite = { version = "0.24", features = ["rustls-tls-webpki-roots"] }
uuid = { version = "1", features = ["v4"] }
