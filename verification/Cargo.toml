[package]
name = "faye"
version = "0.6.0"
edition = "2021"
publish = false

[dependencies]
clap = { version = "4", features = ["derive"] }
pomprt = "*"
