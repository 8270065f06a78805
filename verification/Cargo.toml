[package]
name = "kya"
version = "0.1.0"
edition = "2021"
publish = false

[dependencies]
colored = "2"
url = "2"
once_cell = "1"
clap = { version = "4", features = ["derive"] }
