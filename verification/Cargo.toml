[package]
name = "serial_bridge"
version = "0.1.0"
edition = "2021"
publish = false

[dependencies]
serialport = { version = "*", default-features = false }
serde = { version = "*", features = ["derive"] }
serde_json = "*"
