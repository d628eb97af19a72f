[package]
name = "ochami-rs"
version = "0.1.0"
edition = "2021"
publish = false

[dependencies]
hostlist-parser = "=0.1.6"
log = "=0.4.34"
regex = "=1.13.1"
reqwest = { version = "=0.12.28", default-features = false, features = ["json", "rustls-tls", "socks"] }
serde = { version = "=1.0.229", features = ["derive"] }
serde_json = "=1.0.154"
thiserror = "=2.0.21"
tokio = { version = "=1.54.1", features = ["rt"] }
