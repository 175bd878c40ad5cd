[package]
name = "dotter"
version = "0.1.0"
edition = "2021"
publish = false

[dependencies]
anyhow = "1"
clap = "2"
serde = { version = "1", features = ["derive"] }
shellexpand = "2"
toml = "0.5"
yaml-rust = "0.4"
