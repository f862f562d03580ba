[package]
name = "tartan_bitfield"
version = "1.2.0"
edition = "2021"
publish = false

[dependencies]
paste = "1.0"
