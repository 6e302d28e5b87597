[package]
name = "colorsky_udp"
version = "0.1.0"
edition = "2021"
publish = false

[dependencies]
hex = "0.4"
clap = { version = "4", features = ["derive"] }
serde = { version = "1", features = ["derive"] }
toml = "*"
tracing = "0.1"
tracing-subscriber = "0.3"
enet-sys = "*"
