[package]
name = "screen_broadcast"
version = "0.1.0"
edition = "2021"
publish = false

[dependencies]
base64 = "=0.22.1"
log = "=0.4.34"
openh264 = "=0.6.6"
parking_lot = "=0.12.5"
scrap = "=0.5.0"
serde = { version = "=1.0.229", features = ["derive"] }
serde_json = "=1.0.154"
socket2 = { version = "=0.5.10", features = ["all"] }
softbuffer = "=0.4.8"
thiserror = "=1.0.69"
winit = "=0.30.13"
