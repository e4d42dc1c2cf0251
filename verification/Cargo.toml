[package]
name = "rdmatop"
version = "0.1.0"
edition = "2021"
publish = false

[dependencies]
alphanumeric-sort = "1"
crossterm = "*"
libc = "0.2"
libloading = "*"
nvml-wrapper = "*"
nvml-wrapper-sys = "*"
ratatui = "*"
