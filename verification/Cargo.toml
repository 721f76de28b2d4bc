[package]
name = "rusty_configs"
version = "0.1.0"
edition = "2021"
publish = false

[dependencies]
rusqlite = { version = "*", features = ["bundled"] }
base64 = "*"
clap = "*"
