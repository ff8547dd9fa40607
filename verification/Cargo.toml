[package]
name = "blutgang"
version = "0.1.0"
edition = "2021"
publish = false

[dependencies]
sled = "0.34"
tokio = { version = "1", features = ["sync", "rt-multi-thread", "macros"] }
tokio-stream = { version = "0.1", features = ["sync"] }
clap = { version = "4", features = ["derive"] }
thiserror = "1"
