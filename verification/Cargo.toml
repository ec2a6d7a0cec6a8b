[package]
name = "mal"
version = "0.1.0"
edition = "2021"
publish = false

[dependencies]
rustyline = "*"
tracing = "*"
tracing-subscriber = { version = "*", features = ["env-filter"] }
