[package]
name = "domiform"
version = "0.0.0"
edition = "2021"
publish = false

[dependencies]
async-io = "=2.6.0"
chrono = "=0.4.45"
chrono-tz = "=0.10.4"
croner = "=4.0.2"
embassy-futures = "=0.1.2"
env_logger = "=0.11.11"
futures-lite = "=2.6.1"
futures-util = "=0.3.34"
glob = "=0.3.4"
if-addrs = "=0.13.4"
log = "=0.4.35"
rand = "=0.8.8"
rumqttc = { version = "=0.24.0", default-features = false }
serde = { version = "=1.0.229", features = ["derive"] }
serde_json = "=1.0.154"
serde_yaml = "0.9"
signal-hook = "=0.3.18"
socket2 = "=0.5.10"
sunrise = "=3.0.0"
tiny_http = "=0.12.0"
tokio = { version = "=1.54.1", features = ["rt", "macros", "sync", "time", "net"] }
tokio-tungstenite = "=0.24.0"
