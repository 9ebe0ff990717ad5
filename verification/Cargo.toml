[package]
name = "echotag"
version = "0.1.0"
edition = "2021"
publish = false

[dependencies]
regex = "=1.13.1"
base64 = "=0.22.1"
serde = { version = "=1.0.229", features = ["derive"] }
serde_json = "=1.0.154"
tokio = { version = "=1.54.1", features = ["full"] }
reqwest = { version = "=0.12.28", default-features = false, features = ["json", "blocking", "multipart", "stream", "rustls-tls"] }
anyhow = "=1.0.104"
dotenvy = "=0.15.7"
futures-util = "=0.3.34"
indicatif = "=0.17.11"
lofty = "=0.22.4"
termimad = "=0.35.5"
rig-core = "=0.36.0"
