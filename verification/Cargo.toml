[package]
name = "staking_engine"
version = "0.1.0"
edition = "2021"
publish = false

[dependencies]
anyhow = "=1.0.104"
cosmwasm-std = { version = "=1.5.11", features = ["staking"] }
cosmwasm-storage = "=1.5.2"
cw-storage-plus = "=0.16.0"
cw0 = "=0.10.3"
cw-controllers = "=0.16.0"
schemars = "=0.8.22"
serde = { version = "=1.0.229", default-features = false, features = ["derive"] }
thiserror = "=1.0.69"
