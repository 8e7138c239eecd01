[package]
name = "rt890_flash"
version = "0.1.0"
edition = "2021"
publish = false

[dependencies]
serialport5 = { version = "*", default-features = false }
