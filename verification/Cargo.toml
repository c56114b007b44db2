[package]
name = "last_epoch_build_as_plaintext"
version = "0.1.0"
edition = "2021"
publish = false

[dependencies]
anyhow = "1"
arboard = "3"
clap = { version = "4", features = ["derive"] }
headless_chrome = "1"
serde_json = "1"
