[package]
name = "fastboot"
version = "0.1.0"
edition = "2021"
publish = false

[dependencies]
log = "=0.4.35"
miniz_oxide = "=0.9.1"
uefi = { version = "=0.37.0", features = ["alloc"] }
