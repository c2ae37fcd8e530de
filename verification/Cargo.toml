[package]
name = "panel800"
version = "0.1.0"
edition = "2021"
publish = false

[dependencies]
heapless = "0.8"
embassy-sync = "*"
embassy-time = "*"
embassy-futures = "*"
embassy-executor = "*"
embassy-stm32 = { version = "*", features = ["stm32f051r8", "unstable-pac", "time"] }
embedded-io-async = "*"
defmt = "*"
defmt-rtt = "*"
panic-probe = "*"
