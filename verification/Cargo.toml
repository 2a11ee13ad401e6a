[package]
name = "smsh"
version = "0.1.0"
edition = "2021"
publish = false

[dependencies]
nix = { version = "*", features = ["process", "fs", "user", "term"] }
xdg = "*"
