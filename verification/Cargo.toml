[package]
name = "casc"
version = "0.1.0"
edition = "2021"
publish = false

[dependencies]
aes = "0.8"
cbc = { version = "0.1", features = ["alloc"] }
flate2 = "1.0"
hex = "0.4"
md-5 = "0.10"
sha1 = "0.10"
