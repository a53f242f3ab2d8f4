[package]
name = "packet_proxy"
version = "0.1.0"
edition = "2021"
publish = false

[dependencies]
serde_json = "1"
regex = "1"
lru = "*"
pnet = "*"
reqwest = { version = "*", default-features = false, features = ["blocking"] }
rusqlite = { version = "*", features = ["bundled"] }
crossbeam-channel = "*"
lazy_static = "1"
once_cell = "1"
thiserror = "*"
redis = { version = "*", default-features = false }
