[package]
name = "frame"
version = "0.1.0"
edition = "2021"
publish = false

[dependencies]
heapless = "0.8"
embedded-graphics = "0.8"
embedded-hal = "0.2"
embedded-sdmmc = "0.3"
nb = "1"
fugit = "0.3"
shared-bus = "0.3"
cortex-m = "0.7"
cortex-m-rt = "0.7"
panic-halt = "0.2"
rp-pico = "0.9"
