[package]
name = "octri-monitoring"
version = "0.1.0"
edition = "2021"
publish = false

[dependencies]
chrono = { version = "0.4", default-features = false, features = ["clock"] }
rand = "0.8"
serde_json = "1"
ureq = { version = "2", features = ["json"] }
