[package]
name = "lapis"
version = "0.1.0"
edition = "2021"
publish = false

[dependencies]
cortex-m = "0.6"
cortex-m-rtfm = "0.5"
cortex-m-semihosting = "0.3"
nrf52840-pac = { version = "0.9", features = ["rt"] }
panic-semihosting = "0.5"
