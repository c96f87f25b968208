[package]
name = "split_secret"
version = "0.1.0"
edition = "2021"
publish = false

[dependencies]
ironfish-frost = "*"
rand = "0.8"
