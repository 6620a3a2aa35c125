[package]
name = "mstu"
version = "0.1.0"
edition = "2021"
publish = false

[dependencies]
bytes = "1"
smallvec = "1"
thiserror = "1"
tracing = "0.1"
tracing-subscriber = { version = "0.3", features = ["env-filter", "time", "local-time"] }
time = { version = "0.3", features = ["macros", "local-offset"] }
