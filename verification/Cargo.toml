[package]
name = "yuki_client"
version = "0.1.0"
edition = "2021"
publish = false

[dependencies]
anyhow = "*"
futures-util = "*"
reqwest = { version = "*", default-features = false, features = ["stream"] }
rustyline = "*"
tokio = { version = "*", features = ["rt-multi-thread", "macros"] }
