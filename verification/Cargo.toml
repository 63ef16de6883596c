[package]
name = "filecache"
version = "0.1.0"
edition = "2021"
publish = false

[dependencies]
sha2 = "0.10"
hyper = { version = "0.14", features = ["server", "http1", "tcp"] }
notify = "6"
tokio = { version = "1", features = ["rt-multi-thread", "macros"] }
