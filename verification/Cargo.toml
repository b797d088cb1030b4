[package]
name = "black_jack"
version = "0.1.0"
edition = "2021"
publish = false

[dependencies]
rand = "0.8"
rocket = { version = "0.5", features = ["json"] }
serde = { version = "1", features = ["derive"] }
