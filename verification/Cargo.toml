[package]
name = "p2pfilesend"
version = "0.1.0"
edition = "2021"
publish = false

[dependencies]
sha2 = "*"
