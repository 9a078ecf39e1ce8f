[package]
name = "cooling_control"
version = "0.1.0"
edition = "2021"
publish = false

[dependencies]
anyhow = "=1.0.104"
crc = "=3.4.0"
hidapi = { version = "=2.6.7", default-features = false, features = ["linux-native-basic-udev"] }
nvml-wrapper = "=0.13.0"
serde = { version = "=1.0.229", features = ["derive"] }
serde_json = "=1.0.154"
signal-hook = "=0.3.18"
tracing = "=0.1.44"
tracing-subscriber = { version = "=0.3.23", features = ["env-filter"] }
