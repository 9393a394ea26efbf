[package]
name = "xux"
version = "0.1.0"
edition = "2021"
publish = false

[dependencies]
byteorder = "1"
flate2 = "1"
openssl = "0.10"
image = { version = "0.24", default-features = false, features = ["png"] }
