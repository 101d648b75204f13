[package]
name = "modkit"
version = "0.1.0"
edition = "2021"
publish = false

[dependencies]
tokio = { version = "=1.53.2", features = ["sync", "rt-multi-thread", "macros", "time"] }
warp = { version = "=0.4.3", features = ["server", "websocket"] }
futures = "=0.3.34"
tokio-stream = "=0.1.19"
uuid = { version = "=1.27.0", features = ["v4"] }
sqlx = { version = "=0.9.0", features = ["runtime-tokio", "sqlite"] }
log = "=0.4.34"
env_logger = "=0.11.11"
rppal = "=0.22.1"
home = "=0.5.12"
local-ip-address = "=0.6.13"
chrono = "=0.4.45"
image = { version = "=0.25.10", default-features = false, features = ["jpeg"] }
