[package]
name = "tango"
version = "0.1.0"
edition = "2021"
publish = false

[dependencies]
semver = "=1.0.28"
subtle = "=2.6.1"
mailparse = "=0.18.0"
serde = { version = "=1.0.229", features = ["derive"] }
serde_json = "=1.0.154"
zstd = "=0.13.4"
rand = "=0.8.8"
