[package]
name = "xtrace"
version = "0.1.0"
edition = "2021"
publish = false

[dependencies]
base62 = "*"
chrono = "*"
clap = { version = "*", features = ["derive"] }
tabled = "*"
thiserror = "*"
tracing = "*"
tracing-subscriber = "*"
