[package]
name = "corsair"
version = "0.1.0"
edition = "2021"
publish = false

[dependencies]
async-trait = "0.1"
bytes = "1"
chrono = "0.4"
chrono-tz = "0.10"
env_logger = "0.11"
hashbrown = "0.14"
libc = "0.2"
log = "0.4"
memmap2 = "0.9"
parking_lot = "0.12"
pyo3 = { version = "0.23", features = ["abi3-py38", "extension-module"] }
reqwest = { version = "0.12", default-features = false, features = ["json", "rustls-tls"] }
rmp-serde = "1"
serde = { version = "1", features = ["derive"] }
serde_json = "1"
serde_yaml = "0.9"
thiserror = "1"
tokio = { version = "1", features = ["full"] }
