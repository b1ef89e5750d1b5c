[package]
name = "sandworm"
version = "0.1.0"
edition = "2021"
publish = false

[dependencies]
owo-colors = "*"
