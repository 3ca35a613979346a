[package]
name = "atri_login"
version = "0.1.0"
edition = "2021"
publish = false

[dependencies]
rand = "0.8"
ricq = "*"
bytes = "*"
image = "*"
qrcode = "*"
rqrr = "*"
serde = "*"
serde_json = "*"
tokio = { version = "1", features = ["full"] }
tracing = "*"
tracing-subscriber = "*"
