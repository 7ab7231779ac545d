[package]
name = "bit_reader"
version = "0.1.0"
edition = "2021"
publish = false

[dependencies]
async-std = "1"
bit_reverse = "0.1"
failure = "0.1"
