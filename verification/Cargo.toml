[package]
name = "serial_support"
version = "0.1.0"
edition = "2021"
publish = false

[dependencies]
argparse = "0.2"
base64 = "0.13"
env_logger = "0.9"
hyper = "0.10"
log = "0.4"
rand = "0.8"
serde = { version = "1", features = ["derive"] }
serde_json = "1"
serialport = { version = "4", default-features = false }
toml = "0.5"
websocket = { version = "0.26", default-features = false, features = ["sync"] }
