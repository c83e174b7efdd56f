[package]
name = "tred"
version = "0.1.0"
edition = "2021"
publish = false

[dependencies]
regex = "1"
unescape = "0.1"
quote = "0.3"
