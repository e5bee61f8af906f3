[package]
name = "expect"
version = "0.1.0"
edition = "2021"
publish = false

[dependencies]
futures = "=0.1.31"
libc = "=0.2.191"
log = "=0.4.35"
mio = "=0.6.23"
regex = "=0.2.11"
tokio-core = "=0.1.18"
