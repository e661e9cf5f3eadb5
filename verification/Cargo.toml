[package]
name = "snowball"
version = "0.1.0"
edition = "2021"
publish = false

[dependencies]
byteorder = "1"
hex = "0.4"
rand = "0.4"
ring = "0.17"
