[package]
name = "daisy_pedal"
version = "0.1.0"
edition = "2021"
publish = false

[dependencies]
crc = "=3.4.0"
crc8-rs = "=1.1.1"
bytemuck = "=1.25.2"
serde = { version = "=1.0.229", default-features = false, features = ["derive"] }
serde-big-array = "=0.5.1"
pcobs = "=1.0.0"
libm = "=0.2.16"
microfft = "=0.6.0"
embedded-hal = "0.2"
nb = "1"
cortex-m = "0.7"
critical-section = { version = "1", features = ["std"] }
