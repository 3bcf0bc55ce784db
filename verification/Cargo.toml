[package]
name = "rolodex"
version = "0.1.0"
edition = "2021"
publish = false

[dependencies]
anyhow = "=1.0.104"
arc-swap = "=1.9.3"
async-trait = "=0.1.92"
axum = "=0.8.9"
axum-server = { version = "=0.7.3", features = ["tls-rustls"] }
base64 = "=0.22.1"
bytes = "=1.12.1"
dashmap = "=6.2.1"
h3 = "=0.0.8"
h3-quinn = "=0.0.10"
hex = "=0.4.3"
hickory-proto = { version = "=0.25.2", features = ["dnssec-ring"] }
hickory-resolver = { version = "=0.25.2", features = ["dnssec-ring"] }
http = "=1.5.0"
quinn = "=0.11.12"
rand = "=0.9.5"
ring = "=0.17.14"
rustls = { version = "=0.23.46", default-features = false, features = ["ring", "std", "tls12", "logging"] }
serde = { version = "=1.0.229", features = ["derive"] }
sha2 = "=0.10.9"
socket2 = { version = "=0.5.10", features = ["all"] }
tokio = { version = "=1.54.1", features = ["full"] }
tokio-rustls = { version = "=0.26.6", default-features = false, features = ["ring", "tls12", "logging"] }
tracing = "=0.1.44"
