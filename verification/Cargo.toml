[package]
name = "fcpy"
version = "0.1.0"
edition = "2021"
publish = false

[dependencies]
globset = "0.4"
encoding_rs = "0.8"
walkdir = "2"
clap = { version = "4", default-features = false, features = ["std", "help", "usage", "error-context"] }
