[package]
name = "tower_happy_eyeballs"
version = "0.1.0"
edition = "2021"
publish = false

[dependencies]
futures-core = "0.3"
futures-util = { version = "0.3", default-features = false, features = ["std"] }
pin-project-lite = "0.2"
tokio = { version = "1", features = ["time"] }
tower-layer = "0.3"
tower-service = "0.3"
