[package]
name = "ssh_bridge"
version = "0.1.0"
edition = "2021"
publish = false

[dependencies]
base64 = "=0.23.1"
warp = { version = "=0.4.3", features = ["websocket", "server"] }
tokio = { version = "*", features = ["macros", "rt-multi-thread", "sync"] }
tokio-stream = "*"
futures = "*"
log = "*"
env_logger = "*"
