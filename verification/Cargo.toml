[package]
name = "limbo"
version = "0.1.0"
edition = "2021"
publish = false

[dependencies]
hmac = "*"
sha2 = "*"
uuid = { version = "*", features = ["v3"] }
serde = { version = "*", features = ["derive"] }
serde_json = "*"
hematite-nbt = "*"
mc_chat = "*"
tokio = { version = "*", features = ["full"] }
tokio-util = { version = "*", features = ["codec"] }
futures = "*"
bytes = "*"
tracing = "*"
tracing-subscriber = "*"
