[package]
name = "cframe_player"
version = "0.1.0"
edition = "2021"
publish = false

[dependencies]
anyhow = "*"
cascii-core-view = "*"
clap = { version = "*", features = ["derive"] }
crossterm = "*"
