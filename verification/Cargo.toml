[package]
name = "cpp_joinstr"
version = "0.1.0"
edition = "2021"
publish = false

[dependencies]
miniscript = { version = "=12.3.8", features = ["base64"] }
bip39 = { version = "=2.2.2", features = ["rand"] }
serde = { version = "=1.0.229", features = ["derive"] }
serde_json = "=1.0.154"
log = "=0.4.35"
env_logger = "=0.11.11"
dirs = "=7.0.0"
