[package]
name = "persist_state"
version = "0.1.0"
edition = "2021"
publish = false

[dependencies]
uuid = { version = "*", features = ["v4"] }
semver = "*"
serde = { version = "*", features = ["derive"] }
