[package]
name = "moqtail_apps"
version = "0.1.0"
edition = "2021"
publish = false

[dependencies]
anyhow = "=1.0.104"
base64 = "=0.22.1"
byteorder = "=1.5.0"
bytes = "=1.12.1"
clap = { version = "=4.6.7", features = ["derive"] }
ctrlc = "=3.5.2"
moqtail = "=0.13.1"
mp4 = "=0.14.0"
rand = "=0.10.3"
reqwest = { version = "=0.13.5", default-features = false }
serde = { version = "=1.0.229", features = ["derive"] }
serde_json = "=1.0.154"
tokio = { version = "=1.54.1", features = ["full"] }
tracing = "=0.1.44"
tracing-subscriber = { version = "=0.3.23", features = ["env-filter"] }
wtransport = { version = "=0.7.2", features = ["dangerous-configuration"] }
