[package]
name = "co2_monitor"
version = "0.1.0"
edition = "2021"
publish = false

[dependencies]
crc-any = "=2.5.1"
heapless = "=0.8.0"
embedded-hal = "=0.2.7"
cortex-m = "0.6"
cortex-m-rtic = "0.5"
nrf52840-hal = "0.12"
defmt = "0.2"
defmt-rtt = "0.2"
panic-probe = { version = "0.2", features = ["print-defmt"] }

[dev-dependencies]
postcard = { version = "=0.5.2", features = ["alloc"] }
serde = { version = "=1.0.229", default-features = false }
