[package]
name = "typhoondsl_outliner"
version = "0.1.0"
edition = "2021"
publish = false

[dependencies]
rustemo = "=0.7.1"
regex = "=1.13.1"
serde = { version = "=1.0.229", features = ["derive"] }
serde_json = "=1.0.154"
clap = { version = "=4.6.7", features = ["derive"] }
