[package]
name = "patchkit"
version = "0.1.0"
edition = "2021"
publish = false

[dependencies]
rowan = "=0.16.1"
regex = "=1.13.1"
chrono = { version = "=0.4.45", default-features = false, features = ["std"] }
