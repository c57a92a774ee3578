[package]
name = "zerovisor"
version = "0.1.0"
edition = "2021"
publish = false

[dependencies]
uefi = { version = "=0.28.0", features = ["alloc"] }
uefi-services = { version = "=0.25.0", default-features = false }
