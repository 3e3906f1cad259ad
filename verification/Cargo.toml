[package]
name = "share_conversion"
version = "0.1.0"
edition = "2021"
publish = false

[dependencies]
ark-ff = "0.4"
ark-secp256r1 = "0.4"
rand = "0.8"
itybity = "0.2"

[dev-dependencies]
p256 = "0.13"
