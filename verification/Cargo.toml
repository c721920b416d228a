[package]
name = "devignite"
version = "0.1.0"
edition = "2021"
publish = false

[dependencies]
sha2 = "0.10"
anyhow = "1"
chrono = "0.4"
dirs = "5"
flate2 = "1"
tar = "0.4"
zip = { version = "2", default-features = false, features = ["deflate"] }
walkdir = "2"
rusqlite = { version = "0.32", features = ["bundled"] }
reqwest = { version = "0.12", default-features = false, features = ["rustls-tls", "stream"] }
tokio = { version = "1", features = ["fs", "io-util", "rt-multi-thread"] }
futures-util = "0.3"
uuid = { version = "1", features = ["v4"] }
serde = { version = "1", features = ["derive"] }
log = "0.4"
env_logger = { version = "0.11", default-features = false }
