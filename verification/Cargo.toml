[package]
name = "brochat"
version = "0.1.0"
edition = "2021"
publish = false

[dependencies]
base64 = "0.22"
crc32fast = "1"
serde = { version = "1", features = ["derive"] }
serde_json = { version = "1", features = ["preserve_order"] }
rusqlite = { version = "0.32", features = ["bundled"] }
chrono = { version = "0.4", default-features = false, features = ["clock", "std"] }
uuid = { version = "1", features = ["v4"] }
reqwest = { version = "0.12", default-features = false, features = ["json", "stream"] }
tokio = { version = "1", features = ["rt", "macros", "sync", "time"] }
futures-util = "0.3"
