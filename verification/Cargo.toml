[package]
name = "zerosh"
version = "0.1.0"
edition = "2021"
publish = false

[dependencies]
dirs = "5"
nix = { version = "0.26", features = ["process", "signal", "term", "fs"] }
rustyline = "12"
signal-hook = "0.3"
