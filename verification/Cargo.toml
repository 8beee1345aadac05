[package]
name = "calscan"
version = "0.1.0"
edition = "2021"
publish = false

[dependencies]
log = "*"
prettytable-rs = "*"
simple_logger = "*"
