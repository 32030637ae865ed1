[package]
name = "chat_core"
version = "0.1.0"
edition = "2021"
publish = false

[dependencies]
bcrypt = "=0.19.3"
sha2 = "=0.11.0"
hex = "=0.4.3"
serde = { version = "*", features = ["derive"] }
serde_json = "*"
tokio = { version = "*", features = ["full"] }
warp = { version = "=0.4.3", features = ["server", "websocket", "multipart"] }
futures = "*"
dashmap = "*"
uuid = { version = "*", features = ["v4"] }
anyhow = "*"
tracing = "*"
tracing-subscriber = "*"
bytes = "*"
local-ip-address = "*"
mdns-sd = "*"
qr2term = "*"
