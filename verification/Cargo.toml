[package]
name = "video_prefetch"
version = "0.1.0"
edition = "2021"
publish = false

[dependencies]
anyhow = "*"
axum = "*"
axum-server = "*"
bytes = "*"
futures = "*"
futures-util = "*"
image = { version = "*", default-features = false, features = ["jpeg"] }
mp4parse = "*"
nostr-sdk = "0.38"
once_cell = "*"
reqwest = { version = "*", default-features = false }
serde = { version = "*", features = ["derive"] }
serde_json = "*"
tokio = { version = "*", features = ["macros", "rt-multi-thread", "sync", "fs", "time", "io-util"] }
tokio-util = { version = "*", features = ["io"] }
url = "*"
uuid = { version = "*", features = ["v4"] }
