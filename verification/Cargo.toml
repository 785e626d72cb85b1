[package]
name = "u256"
version = "0.1.0"
edition = "2021"
publish = false

[dependencies]
ethereum-types = { version = "*", default-features = false, features = ["std"] }
uint = "*"
