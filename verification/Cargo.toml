[package]
name = "snapshot_filter"
version = "0.1.0"
edition = "2021"
publish = false

[dependencies]
base64 = "0.13"
bs58 = "*"
clap = { version = "3", features = ["derive"] }
csv = "*"
env_logger = "*"
log = "*"
serde = { version = "*", features = ["derive"] }
thiserror = "*"
