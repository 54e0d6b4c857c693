[package]
name = "preload_stores"
version = "0.1.0"
edition = "2021"
publish = false

[dependencies]
nix = { version = "0.30", features = ["fanotify", "poll"] }
procfs = "0.17"
rustc-hash = "2"
serde = { version = "1", features = ["derive"] }
serde_with = "3"
tracing = "0.1"

[dev-dependencies]
tempfile = "3"
