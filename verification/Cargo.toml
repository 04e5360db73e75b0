[package]
name = "fantasy_hockey"
version = "0.1.0"
edition = "2021"
publish = false

[dependencies]
serde = { version = "=1.0.229", features = ["derive"] }
serde_json = "=1.0.154"
rand = { version = "=0.8.8", features = ["small_rng"] }
chrono = { version = "0.4", default-features = false, features = ["std"] }
