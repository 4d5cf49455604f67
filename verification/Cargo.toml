[package]
name = "argon"
version = "0.1.0"
edition = "2021"
publish = false

[dependencies]
at-commands = "=0.5.8"
embedded-hal = "1"
nrf52840-hal = "=0.19.0"
