[package]
name = "vfs"
version = "0.1.0"
edition = "2021"
publish = false

[dependencies]
indexmap = "*"
rand = { version = "0.8", features = ["small_rng"] }
chrono = "*"
serde = { version = "*", features = ["derive"] }
serde_json = "*"
colored = "*"
