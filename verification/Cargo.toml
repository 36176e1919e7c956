[package]
name = "auxcast"
version = "0.1.0"
edition = "2021"
publish = false

[dependencies]
anyhow = "1"
async-stream = "0.3"
bytes = "1"
cast-sender = "*"
cpal = "0.15"
ctrlc = "3"
dialoguer = "0.11"
futures-util = "0.3"
local-ip-address = "*"
mdns = "3"
tokio = { version = "1", features = ["full"] }
warp = "0.3"
