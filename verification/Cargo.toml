[package]
name = "chunkstore"
version = "0.1.0"
edition = "2021"
publish = false

[dependencies]
uuid = { version = "*", features = ["v4"] }
ydb = "*"
tokio = { version = "*", features = ["macros", "rt-multi-thread", "fs", "io-util"] }
anyhow = "*"
tracing = "*"
tracing-subscriber = "*"
