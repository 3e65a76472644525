[package]
name = "nest_core"
version = "0.1.0"
edition = "2021"
publish = false

[dependencies]
crossbeam-channel = "*"
dashmap = "*"
tokio = { version = "*", features = ["net", "rt", "rt-multi-thread", "io-util", "time", "macros"] }
uuid = { version = "*", features = ["v4"] }
