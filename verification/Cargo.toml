[package]
name = "samsmrti"
version = "0.1.0"
edition = "2021"
publish = false

[dependencies]
chrono = "=0.4.45"
serde = { version = "=1.0.229", features = ["derive"] }
serde_json = "=1.0.154"
rusqlite = { version = "=0.41.1", features = ["bundled"] }
flate2 = "=1.1.10"
zip = { version = "=9.2.2", default-features = false, features = ["deflate"] }
uuid = { version = "=1.29.0", features = ["v4"] }
dirs = "=7.0.0"
tempfile = "=3.27.0"
