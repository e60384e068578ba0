[package]
name = "sdwanlite"
version = "0.1.0"
edition = "2021"
publish = false

[dependencies]
base64 = "=0.22.1"
sha2 = "=0.10.9"
rand = "=0.8.8"
uuid = { version = "=1.29.0", features = ["v4"] }
x25519-dalek = { version = "=2.0.1", features = ["static_secrets"] }
serde = { version = "=1.0.229", features = ["derive"] }
serde_json = "=1.0.154"
toml = "=0.8.23"
tokio = { version = "=1.54.1", features = ["rt-multi-thread", "macros", "net", "io-util", "time", "sync", "signal", "fs", "process"] }
axum = { version = "=0.7.9", features = ["ws"] }
tokio-tungstenite = "=0.21.0"
futures-util = "=0.3.34"
anyhow = "=1.0.104"
h2 = "=0.4.20"
http = "=1.5.0"
bytes = "=1.12.1"
x509-parser = "=0.16.0"
tokio-rustls = { version = "=0.26.6", default-features = false, features = ["ring", "logging", "tls12"] }
rustls-pemfile = "=2.2.0"
instant-acme = { version = "0.7", default-features = false, features = ["hyper-rustls", "ring"] }
rcgen = "0.13"
