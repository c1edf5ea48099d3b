[package]
name = "challenge_relay"
version = "0.1.0"
edition = "2021"
publish = false

[dependencies]
md5 = "*"
rand = "*"
serde = { version = "*", features = ["derive"] }
serde_json = "*"
clap = { version = "*", features = ["derive"] }
