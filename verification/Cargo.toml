[package]
name = "echo_reactor"
version = "0.1.0"
edition = "2021"
publish = false

[dependencies]
futures = "=0.3.34"
nix = { version = "=0.31.3", features = ["event"] }
