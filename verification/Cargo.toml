[package]
name = "uring_fs"
version = "0.1.0"
edition = "2021"
publish = false

[dependencies]
tokio = { version = "*", features = ["rt-multi-thread"] }
tokio-uring = "*"
