[package]
name = "line_relay"
version = "0.1.0"
edition = "2021"
publish = false

[dependencies]
libc = "0.2"
io-uring = "*"
tokio = { version = "1", default-features = false, features = ["rt-multi-thread", "net", "io-util", "sync", "macros"] }
