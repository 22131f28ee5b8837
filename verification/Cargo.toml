[package]
name = "toboggan_kv"
version = "0.1.0"
edition = "2021"
publish = false

[dependencies]
sled = "0.34"
tempfile = "3"
