[package]
name = "qtx"
version = "0.1.0"
edition = "2021"
publish = false

[dependencies]
memchr = "2"
slab = "0.4"
rustc-hash = "2"
libc = "0.2"
thiserror = "2"
