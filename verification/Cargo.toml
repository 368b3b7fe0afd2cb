[package]
name = "scale_server"
version = "0.1.0"
edition = "2021"
publish = false

[dependencies]
rustc-serialize = "0.3"
url = "2"
websocket = { version = "*", default-features = false, features = ["sync"] }
log = "0.4"
env_logger = "*"
docopt = "1"
serde = { version = "1", features = ["derive"] }
time = "0.1"
