[package]
name = "stegano"
version = "0.1.0"
edition = "2021"
publish = false

[dependencies]
aes = "0.8"
clap = { version = "4", features = ["derive"] }
crc32-v2 = "*"
