[package]
name = "apres"
version = "0.3.0"
edition = "2021"
publish = false

[dependencies]
libc = "*"
