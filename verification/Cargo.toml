[package]
name = "libxch"
version = "0.1.0"
edition = "2021"
publish = false

[dependencies]
uuid = { version = "1", features = ["v4"] }
libc = "0.2"
errno = "0.3"
