[package]
name = "batteryrc"
version = "0.1.0"
edition = "2021"
publish = false

[dependencies]
anyhow = "*"
directories = "*"
systemstat = "*"
tracing = "*"
tracing-appender = "*"
tracing-subscriber = "*"
