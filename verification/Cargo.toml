[package]
name = "stream_combinators"
version = "0.1.0"
edition = "2021"
publish = false

[dependencies]
futures = "0.1"
tokio-timer = "0.2"

[dev-dependencies]
tokio-executor = "0.1"
