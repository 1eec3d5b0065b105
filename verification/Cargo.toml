[package]
name = "conga_core"
version = "0.1.0"
edition = "2021"
publish = false

[dependencies]
sha2 = "=0.10.9"
serde = { version = "=1.0.229", features = ["derive"] }
serde_json = "=1.0.154"
toml = "=0.8.23"
dirs = "=5.0.1"
uuid = { version = "=1.29.0", features = ["v4"] }
tokio = { version = "1", features = ["rt-multi-thread", "macros", "sync"] }
sqlx = { version = "0.8", default-features = false, features = ["sqlite", "runtime-tokio"] }
chrono = { version = "0.4", default-features = false, features = ["clock"] }
