[package]
name = "dotmanager"
version = "0.1.0"
edition = "2021"
publish = false

[dependencies]
color-print = "0.3"
crossterm = "0.27"
dialoguer = "0.11"
dirs = "5"
once_cell = "1"
prettytable-rs = { version = "0.10", default-features = false }
