[package]
name = "tagbump"
version = "0.1.0"
edition = "2021"
publish = false

[dependencies]
semver = "1"
git2 = "*"
clap = { version = "4", features = ["derive"] }
