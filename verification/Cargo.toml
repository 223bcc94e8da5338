[package]
name = "waveflow"
version = "0.1.0"
edition = "2021"
publish = false

[dependencies]
anyhow = "*"
clap = "*"
image = "*"
rand = "*"
serde = { version = "*", features = ["derive"] }
serde_yaml = "*"
