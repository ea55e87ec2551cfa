[package]
name = "pnet_datalink"
version = "0.1.0"
edition = "2021"
publish = false

[dependencies]
ipnetwork = { version = "0.20", default-features = false }
libc = "0.2"
winapi = { version = "0.3", features = ["winerror", "winsock2", "ws2def", "ws2ipdef"] }
