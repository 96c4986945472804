[package]
name = "kami"
version = "0.1.0"
edition = "2021"
publish = false

[dependencies]
htmlentity = "=1.2.0"
