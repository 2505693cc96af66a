[package]
name = "sfu_core"
version = "0.1.0"
edition = "2021"
publish = false

[dependencies]
base64 = "=0.13.1"
hmac = "=0.12.1"
sha1 = "=0.10.7"
tokio = { version = "=1.53.2", features = ["full"] }
uuid = { version = "=1.27.0", features = ["v4"] }
serde = { version = "=1.0.229", features = ["derive"] }
serde_json = "=1.0.151"
warp = "=0.3.7"
tokio-stream = "=0.1.19"
futures = "=0.3.34"
log = "=0.4.34"
env_logger = "=0.10.2"
dotenv = "=0.15.0"
rand = "=0.8.8"
rand_chacha = "=0.3.1"
tokio-postgres = "=0.7.18"
mobc = "=0.8.5"
mobc-postgres = "=0.8.0"
webrtc = "=0.13.0"
