[package]
name = "tokio_stage"
version = "0.1.0"
edition = "2021"
publish = false

[dependencies]
tokio = { version = "1", features = ["rt", "rt-multi-thread", "sync", "time", "macros"] }
futures = "0.3"
tower = { version = "0.4", features = ["util"] }
tracing = "0.1"
pin-project = "1"
