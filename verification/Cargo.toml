[package]
name = "bache"
version = "0.1.0"
edition = "2021"
publish = false

[dependencies]
uuid = "*"
sha2 = "*"

[dev-dependencies]
hex = "*"
