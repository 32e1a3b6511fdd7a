[package]
name = "eto"
version = "0.1.0"
edition = "2021"
publish = false

[dependencies]
sha256 = "*"
glob = "*"
flate2 = "*"
tar = "*"
walkdir = "*"
pathdiff = "*"
sysinfo = "*"
clap = { version = "*", features = ["derive"] }
anyhow = "*"
tracing = "*"
tracing-subscriber = "*"
tracing-appender = "*"

[dev-dependencies]
serde_json = "*"
