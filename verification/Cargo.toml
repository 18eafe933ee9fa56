[package]
name = "osu_scores"
version = "0.1.0"
edition = "2021"
publish = false

[dependencies]
bytes = "1"
memchr = "2"
tokio-tungstenite = { version = "*", default-features = false }
