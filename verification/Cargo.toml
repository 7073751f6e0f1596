[package]
name = "pio_spi"
version = "0.1.0"
edition = "2021"
publish = false

[dependencies]
fixed = "1"
num = { version = "0.4", default-features = false }
embedded-hal = "1.0"
embedded-hal-async = "1.0"
embassy-embedded-hal = "*"
embassy-futures = "*"
embassy-hal-internal = "*"
embassy-time = "*"
defmt = "*"
