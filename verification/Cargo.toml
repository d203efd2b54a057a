[package]
name = "tan"
version = "0.1.0"
edition = "2021"
publish = false

[dependencies]
anyhow = "1"
clap = { version = "4", features = ["derive"] }
crossterm = { version = "*", features = ["serde"] }
itertools = "*"
serde = { version = "1", features = ["derive"] }
serde_json = "1"
tap = "1"
