[package]
name = "msgr"
version = "0.1.0"
edition = "2021"
publish = false

[dependencies]
prost = "0.13"
thiserror = "1"
tokio = { version = "1", features = ["io-std", "io-util", "macros", "net", "rt", "rt-multi-thread"] }
tracing = "0.1"
tracing-subscriber = "0.3"
