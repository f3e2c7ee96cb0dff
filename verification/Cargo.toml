[package]
name = "rfbproxy"
version = "0.1.0"
edition = "2021"
publish = false

[dependencies]
anyhow = "=1.0.104"
base64 = "=0.13.1"
byte-slice-cast = "=1.2.3"
bytes = "=1.12.1"
chrono = "=0.4.45"
cipher = "=0.2.5"
clap = "=2.34.0"
des = "=0.6.0"
env_logger = "=0.9.3"
futures = "=0.3.34"
http = "=0.2.12"
hyper = { version = "=0.14.32", features = ["full"] }
hyper-staticfile = "=0.9.6"
hyper-tungstenite = "=0.8.2"
lame-sys = "=0.1.2"
libpulse-binding = "=2.30.1"
libpulse-simple-binding = "=2.29.0"
log = "=0.4.35"
opus = "=0.2.1"
paseto = { version = "=2.0.2", default-features = false, features = ["v2"] }
path-clean = "=0.1.0"
prost = "=0.9.0"
rand = "=0.8.8"
serde_json = "=1.0.154"
tokio = { version = "=1.54.1", features = ["full"] }
tokio-tungstenite = "=0.17.2"

[dev-dependencies]
matroska = "=0.30.1"
ring = "=0.16.20"
tempfile = "=3.27.0"
tokio-test = "=0.4.6"
