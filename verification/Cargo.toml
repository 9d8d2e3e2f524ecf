[package]
name = "linuxpods"
version = "0.1.0"
edition = "2021"
publish = false

[dependencies]
aes = "0.8"
base64 = "0.22"
anyhow = "1"
async-channel = "2"
bluer = { version = "0.17", features = ["bluetoothd", "l2cap"] }
dirs = "6"
futures-util = "0.3"
gtk4 = "0.9"
libadwaita = { version = "0.7", features = ["v1_4"] }
ksni = "0.3"
serde = { version = "1", features = ["derive"] }
serde_json = "1"
tokio = { version = "1", features = ["full"] }
tracing = "0.1"
tracing-subscriber = { version = "0.3", features = ["env-filter"] }
zbus = "5"
