[package]
name = "media_service"
version = "0.1.0"
edition = "2021"
publish = false

[dependencies]
bytes = "1"
http = "1"
tokio = { version = "1", features = ["macros", "net", "rt-multi-thread", "signal", "sync", "time"] }
tonic = "0.12"
tracing = "0.1"
tracing-subscriber = "0.3"
