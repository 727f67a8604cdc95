[package]
name = "nesty"
version = "0.1.0"
edition = "2021"
publish = false

[dependencies]
crossbeam-deque = "0.8"
crossbeam-utils = "0.8"
dashmap = "6"
mio = { version = "1", features = ["os-poll", "net"] }
