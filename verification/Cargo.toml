[package]
name = "provision"
version = "0.1.0"
edition = "2021"
publish = false

[dependencies]
flate2 = "=1.1.10"
tar = "=0.4.46"
zip = { version = "=8.6.0", default-features = false, features = ["deflate"] }
reqwest = { version = "=0.12.28", default-features = false, features = ["blocking", "rustls-tls"] }
serde = { version = "=1.0.229", features = ["derive"] }
serde_json = "=1.0.151"
serde_yaml = "=0.9.34"
chrono = "=0.4.45"
thiserror = "=2.0.21"
rusqlite = { version = "=0.40.2", features = ["bundled"] }
