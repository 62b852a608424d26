[package]
name = "lantern"
version = "0.8.0"
edition = "2021"
publish = false

[dependencies]
ipnetwork = "*"
rand = "0.8"
chrono = "0.4"
serde = { version = "1", features = ["derive"] }
serde_json = "1"
rusqlite = { version = "*", features = ["bundled"] }
hickory-resolver = "0.25"
network-interface = "2"
tokio = { version = "1", features = ["full"] }
reqwest = { version = "0.12", default-features = false, features = ["rustls-tls"] }
parking_lot = "0.12"
once_cell = "1"
dns-lookup = "2"
