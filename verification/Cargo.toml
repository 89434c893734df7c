[package]
name = "aoe_server"
version = "0.1.0"
edition = "2021"
publish = false

[dependencies]
blake3 = { version = "1", features = ["pure"] }
hex = "0.4"
lz4_flex = "0.11"
byteorder = "1"
serde = { version = "1", features = ["derive"] }
serde_json = "1"
thiserror = "1"
anyhow = "1"
log = "0.4"
env_logger = "0.11"
toml = "0.8"
pnet = "0.35"
libc = "0.2"
