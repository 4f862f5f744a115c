[package]
name = "rpi_loader"
version = "0.2.0"
edition = "2021"
publish = false

[dependencies]
anyhow = "=1.0.104"
clap = { version = "=4.6.7", features = ["derive"] }
clap_complete = "4"
crc = "=3.4.0"
crc32fast = "=1.5.4"
crossterm = "=0.29.0"
ctrlc = "=3.5.2"
embedded-sdmmc = "=0.9.0"
resident-fat = "=0.3.1"
rpi-hal = { version = "=0.11.0", default-features = false, features = ["bcm2837", "embedded-sdmmc"] }
serde = { version = "=1.0.229", features = ["derive"] }
serde_json = "=1.0.154"
serialport = { version = "=4.10.1", default-features = false }
toml = "=1.1.8"
ureq = { version = "=3.5.1", default-features = false }
