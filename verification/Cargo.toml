[package]
name = "multicast_demo"
version = "0.1.0"
edition = "2021"
publish = false

[dependencies]
anyhow = "*"
socket2 = { version = "*", features = ["all"] }
tracing = "*"
tracing-subscriber = "*"
