[package]
name = "guido"
version = "0.1.0"
edition = "2021"
publish = false

[dependencies]
zeroize = "1"
log = "0.4"
libc = "0.2"
