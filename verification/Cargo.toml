[package]
name = "signaller"
version = "0.1.0"
edition = "2021"
publish = false

[dependencies]
env_logger = "*"
failure = "*"
futures-channel = "*"
futures-util = { version = "*", features = ["sink"] }
log = "*"
serde = { version = "*", features = ["derive"] }
serde_json = "*"
tokio = { version = "*", features = ["macros", "rt-multi-thread", "net"] }
tokio-tungstenite = "*"
tungstenite = "*"
uuid = "*"
