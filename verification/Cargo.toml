[package]
name = "helmor_triage"
version = "0.1.0"
edition = "2021"
publish = false

[dependencies]
anyhow = "1"
base64 = "0.22"
chrono = { version = "0.4", default-features = false, features = ["clock", "std"] }
reqwest = { version = "0.12", default-features = false, features = ["blocking", "json", "rustls-tls"] }
rusqlite = { version = "0.32", features = ["bundled"] }
serde = { version = "1", features = ["derive"] }
serde_json = "1"
sha2 = "*"
tokio = { version = "1", features = ["rt-multi-thread", "fs", "io-util", "process", "time", "sync"] }
toml = "0.8"
tracing = "0.1"
uuid = { version = "1", features = ["v4"] }
