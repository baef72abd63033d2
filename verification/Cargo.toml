[package]
name = "towerzip"
version = "0.1.0"
edition = "2021"
publish = false

[dependencies]
zip = { version = "*", default-features = false, features = ["deflate", "deflate64", "bzip2"] }
clap = { version = "*", features = ["derive"] }
walkdir = "*"
indicatif = "*"
