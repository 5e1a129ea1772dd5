[package]
name = "aether"
version = "0.1.0"
edition = "2021"
publish = false

[dependencies]
md5 = "=0.7.0"
uuid = { version = "=1.29.0", features = ["v4"] }
serde = { version = "=1.0.229", features = ["derive"] }
serde_json = "=1.0.154"
anyhow = "=1.0.104"
hound = "=3.5.1"
chrono = "=0.4.45"
dirs = "=5.0.1"
tokio = { version = "=1.54.1", features = ["sync", "rt", "macros", "time"] }
reqwest = { version = "=0.12.28", default-features = false, features = ["json"] }
rcgen = "0.13"

[dev-dependencies]
tempfile = "=3.27.0"
