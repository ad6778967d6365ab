[package]
name = "aes67_vsc"
version = "0.1.0"
edition = "2021"
publish = false

[dependencies]
axum = "0.7"
clap = { version = "4", features = ["derive"] }
dotenv = "0.15"
hostname = "0.4"
jack = "0.13"
log = "0.4"
miette = "7"
pin-project-lite = "0.2"
pnet = "0.35"
rand = "0.8"
regex = "=1.13.1"
rtp-rs = "=0.6.0"
sap-rs = "=0.3.0"
sdp = "=0.8.0"
serde = { version = "1", features = ["derive"] }
serde_json = "1"
shared_memory = "0.12"
socket2 = "0.5"
statime = "=0.4.0"
statime-linux = "=0.4.0"
thiserror = "1"
thread-priority = "1.2"
timestamped-socket = "0.2"
tokio = { version = "1", features = ["full"] }
tokio-graceful-shutdown = "0.15"
tokio-util = "0.7"
tower-http = { version = "0.6", features = ["fs", "trace"] }
tracing-subscriber = { version = "0.3", features = ["env-filter"] }
uuid = { version = "1", features = ["v4"] }
worterbuch-client = "=1.6.0"
