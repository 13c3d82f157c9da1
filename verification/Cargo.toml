[package]
name = "tetris_relay"
version = "0.1.0"
edition = "2021"
publish = false

[dependencies]
random = "*"
serde = { version = "1", features = ["derive"] }
serde_json = "1"
futures = "0.3"
tokio = { version = "1", features = ["time"] }
rocket = "0.5"
rocket_ws = "0.1"
http = "*"
