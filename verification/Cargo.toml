[package]
name = "yoctocollab"
version = "0.1.0"
edition = "2021"
publish = false

[dependencies]
y-octo = "*"
tokio = { version = "*", features = ["rt-multi-thread", "net", "sync", "macros", "time"] }
tokio-tungstenite = "*"
futures = "*"
log = "*"
