[package]
name = "wot_serve"
version = "0.1.0"
edition = "2021"
publish = false

[dependencies]
axum = "=0.8.9"
hostname = "=0.4.2"
if-addrs = "=0.15.0"
mdns-sd = "=0.21.5"
serde_json = "=1.0.151"
tokio = { version = "=1.53.2", features = ["net", "rt"] }
tower-http = { version = "=0.7.1", features = ["cors"] }
uuid = { version = "=1.27.0", features = ["v4"] }
