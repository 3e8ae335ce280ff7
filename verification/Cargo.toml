[package]
name = "stagecraft"
version = "0.1.0"
edition = "2021"
publish = false

[dependencies]
tokio = { version = "1", features = ["sync", "rt", "rt-multi-thread", "macros", "time"] }
tokio-util = { version = "0.7", features = ["rt"] }
tokio-stream = "0.1"
futures-core = "0.3"
heck = "0.5"
syn = { version = "2", features = ["full"] }
quote = "1"
proc-macro2 = "1"
