[package]
name = "up_uds_transport"
version = "0.1.0"
edition = "2021"
publish = false

[dependencies]
up-rust = "*"
protobuf = "3"
anyhow = "1"
async-trait = "0.1"
tokio = { version = "1", features = ["full"] }
log = "0.4"
env_logger = "*"
rand = "0.9"
