[package]
name = "uring_driver"
version = "0.1.0"
edition = "2021"
publish = false

[dependencies]
io-uring = "*"
libc = "*"
scoped-tls = "*"
