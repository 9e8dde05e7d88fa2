[package]
name = "beets_edit"
version = "0.1.0"
edition = "2021"
publish = false

[dependencies]
regex = "*"
serde = { version = "*", features = ["derive"] }
serde_yaml = "*"
clap = { version = "*", features = ["derive"] }
dirs = "*"
color-eyre = "*"
