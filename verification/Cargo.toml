[package]
name = "enderecobr_rs"
version = "0.1.0"
edition = "2021"
publish = false

[dependencies]
rustc-hash = "=2.1.3"
itertools = "=0.15.0"
regex = "1"
regex-syntax = "0.8"
