[package]
name = "usb_i2s_dac"
version = "0.1.0"
edition = "2021"
publish = false

[dependencies]
embassy-usb = "*"
embassy-executor = "*"
embassy-futures = "*"
embassy-sync = "*"
static_cell = "*"
panic-halt = "*"
ch32-hal = "*"
qingke-rt = "*"
