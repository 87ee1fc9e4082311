[package]
name = "yaad"
version = "0.1.0"
edition = "2021"
publish = false

[dependencies]
serde = { version = "1", features = ["derive"] }
serde_json = "1"
regex = "1"
base64 = "0.22"
uuid = { version = "1", features = ["v4"] }
rusqlite = { version = "0.31", features = ["bundled"] }
sqlite-vec = "0.1"
bytemuck = "1"
anyhow = "1"
rubato = "0.14"
futures-util = "0.3"
tokio = { version = "1", features = ["time"] }
image = { version = "0.25", default-features = false, features = ["jpeg", "png"] }
reqwest = { version = "0.12", default-features = false, features = ["stream", "rustls-tls"] }
cpal = "0.15"
whisper-rs = "0.13"
fastembed = "3"
ort = "2.0.0-rc.9"
swift-rs = "1.0.7"
