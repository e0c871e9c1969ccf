[package]
name = "rc5_block"
version = "0.1.0"
edition = "2021"
publish = false

[dependencies]
hex = "0.4"
rand = "0.8"
clap = { version = "4", features = ["derive"] }
anyhow = "1"
thiserror = "1"
