[package]
name = "mc_honeypot"
version = "0.1.0"
edition = "2021"
publish = false

[dependencies]
anyhow = "=1.0.104"
bytes = "=1.12.1"
clap = { version = "=3.2.25", features = ["derive"] }
futures = "=0.3.34"
isahc = { version = "=1.8.3", features = ["json"] }
rand = "=0.8.8"
serde = { version = "=1.0.229", features = ["derive"] }
serde_json = "=1.0.154"
time = { version = "=0.3.55", features = ["serde"] }
tokio = { version = "=1.54.1", features = ["full"] }
tokio-util = { version = "=0.7.20", features = ["codec"] }
toml = "=0.5.11"
uuid = { version = "=1.29.0", features = ["serde"] }
webhook = "=2.1.2"
