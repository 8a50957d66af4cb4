[package]
name = "birdseye_common"
version = "0.1.0"
edition = "2021"
publish = false

[dependencies]
flate2 = "=1.1.10"
serde = { version = "=1.0.229", features = ["derive"] }
thiserror = "=1.0.69"
toml = "*"
