[package]
name = "pyuml"
version = "0.1.0"
edition = "2021"
publish = false

[dependencies]
clap = { version = "=4.5.61", features = ["derive"] }
walkdir = "=2.5.0"
