[package]
name = "payjoin-harness"
version = "0.1.0"
edition = "2021"
publish = false

[dependencies]
anyhow = "1"
base64 = "0.22"
bitcoin = "0.32"
payjoin = { version = "*", default-features = false, features = ["v1", "v2"] }
serialport = { version = "4", default-features = false }
