[package]
name = "ua_mask"
version = "0.5.0"
edition = "2021"
publish = false

[dependencies]
bytes = "1"
clap = { version = "4", features = ["derive"] }
httparse = "1"
lru = "0.12"
nix = { version = "0.29", features = ["socket", "net"] }
regex = "1"
tokio = { version = "1", features = ["full"] }
tracing = "0.1"
tracing-subscriber = "0.3"
