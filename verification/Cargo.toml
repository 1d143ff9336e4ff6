[package]
name = "resource_pool"
version = "0.1.0"
edition = "2021"
publish = false

[dependencies]
dashmap = "6"
derive_more = { version = "1", features = ["debug"] }
log = "0.4"
parking_lot = "0.12"
reqwest = { version = "0.12", default-features = false, features = ["blocking"] }
serde = { version = "1", features = ["derive"] }
serde_json = "1"
serde_yaml = "0.9"
thiserror = "1"
