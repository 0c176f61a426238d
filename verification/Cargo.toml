[package]
name = "edge_tts"
version = "0.1.0"
edition = "2021"
publish = false

[dependencies]
anyhow = "*"
bytes = "*"
futures-util = "*"
hex = "*"
rand = "*"
tokio-tungstenite = "*"
xml-rs = "*"
