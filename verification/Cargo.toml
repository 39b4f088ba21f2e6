[package]
name = "melstate"
version = "0.1.0"
edition = "2021"
publish = false

[dependencies]
tmelcrypt = "*"
melpow = "*"
