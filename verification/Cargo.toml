[package]
name = "musicalist"
version = "0.1.0"
edition = "2021"
publish = false

[dependencies]
base64 = "*"

[dev-dependencies]
serde = "*"
rmp-serde = "*"
csv = "*"
