[package]
name = "rollingpanda"
version = "0.1.0"
edition = "2021"
publish = false

[dependencies]
anyhow = "=1.0.104"
bytes = "1"
clap = { version = "4", features = ["derive"] }
portable-pty = "=0.9.0"
rand = "0.10"
russh = { version = "=0.61.2", default-features = false, features = ["ring"] }
subtle = "=2.6.1"
tokio = { version = "1", features = ["full"] }
tracing = "0.1"
tracing-subscriber = { version = "0.3", features = ["env-filter"] }
