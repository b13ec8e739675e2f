[package]
name = "light"
version = "0.1.0"
edition = "2021"
publish = false

[dependencies]
hex = "0.4"
serde = { version = "1", features = ["derive"] }
serde_json = "1"
log = "0.4"
flume = "0.11"
once_cell = "1"
mdns-sd = "0.11"
serialport = "4"
hidapi = "2"
cpal = "0.15"
spectrum-analyzer = "1"
inventory = "0.3"
