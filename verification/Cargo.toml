[package]
name = "nrf24l01"
version = "0.2.0"
edition = "2021"
publish = false

[dependencies]
anyhow = "1"
embedded-hal = "1.0"
embassy-time = "*"
embassy-rp = { version = "*", features = ["rp2040"] }
spidev = "*"
sysfs_gpio = "*"
rppal = "*"
