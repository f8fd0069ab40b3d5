[package]
name = "quietmytempo"
version = "0.1.0"
edition = "2021"
publish = false

[dependencies]
rand = "0.8"
anyhow = "1"
crossterm = "0.28"
ratatui = { version = "0.29", default-features = false, features = ["crossterm"] }
cpal = "*"
dirs = "*"
