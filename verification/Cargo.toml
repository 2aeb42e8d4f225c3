[package]
name = "dune_admin"
version = "0.1.0"
edition = "2021"
publish = false

[dependencies]
base64 = "0.22"
chrono = { version = "0.4", default-features = false, features = ["clock", "std"] }
regex = "1"
serde = { version = "1", features = ["derive"] }
serde_json = "1"
