[package]
name = "monitor"
version = "0.1.0"
edition = "2021"
publish = false

[dependencies]
byteorder = "1"
rand = "0.8"
sysinfo = "0.22"
reqwest = { version = "0.11", default-features = false, features = ["blocking"] }
