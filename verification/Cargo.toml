[package]
name = "minecraft_packet"
version = "0.1.0"
edition = "2021"
publish = false

[dependencies]
byteorder = "*"
bytes = "*"
integer-encoding = "*"
tokio = { version = "*", default-features = false, features = ["io-util"] }
tokio-util = { version = "*", default-features = false, features = ["codec"] }
