[package]
name = "localdocks"
version = "0.9.0"
edition = "2021"
publish = false

[dependencies]
semver = "=1.0.28"
serde = { version = "=1.0.229", features = ["derive"] }
log = "=0.4.35"

[dev-dependencies]
serde_json = "=1.0.154"
