[package]
name = "f5rail"
version = "0.1.0"
edition = "2021"
publish = false

[dependencies]
anyhow = "*"
encoding_rs = "*"
encoding_rs_io = "*"
