[package]
name = "burst_miner"
version = "0.1.0"
edition = "2021"
publish = false

[dependencies]
shabal = "*"
libc = "*"
regex = "*"
rustc-serialize = "*"
