[package]
name = "sid"
version = "0.1.0"
edition = "2021"
publish = false

[dependencies]
rand = "*"
uuid = "*"
clap = { version = "*", features = ["derive"] }
