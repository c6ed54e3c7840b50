[package]
name = "zord"
version = "0.1.0"
edition = "2021"
publish = false

[dependencies]
anyhow = "=1.0.104"
axum = "=0.7.9"
base64 = "=0.22.1"
chrono = "=0.4.45"
hex = "=0.4.3"
html-escape = "=0.2.15"
redb = "=2.6.4"
reqwest = { version = "=0.12.28", default-features = false, features = ["json", "rustls-tls"] }
serde = { version = "=1.0.229", features = ["derive"] }
serde_json = "=1.0.154"
tokio = { version = "=1.54.1", features = ["full"] }
tower = { version = "=0.4.13", features = ["limit", "timeout", "util"] }
tower-http = { version = "=0.5.2", features = ["cors", "compression-gzip", "fs"] }
tracing = "=0.1.44"
tracing-subscriber = "=0.3.23"
zmq = "0.10"
