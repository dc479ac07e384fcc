[package]
name = "seki"
version = "0.1.0"
edition = "2021"
publish = false

[dependencies]
anyhow = "*"
clap = { version = "*", features = ["derive"] }
ishou-tokens = "*"
notify = "*"
serde = { version = "*", features = ["derive"] }
serde_json = "*"
serde_yaml = "*"
shikumi = "*"
