[package]
name = "sharun"
version = "0.1.0"
edition = "2021"
publish = false

[dependencies]
walkdir = "*"
goblin = "*"
nix = { version = "*", features = ["fs"] }
which = "*"
dotenv = "*"
userland-execve = "*"
