[package]
name = "improc_petrsu"
version = "0.1.0"
edition = "2021"
publish = false

[dependencies]
image = "*"
