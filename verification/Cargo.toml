[package]
name = "conc"
version = "0.1.0"
edition = "2021"
publish = false

[dependencies]
rand = "=0.10.3"
nix = { version = "=0.31.3", features = ["mman", "event"] }
futures = "0.3"
tokio = { version = "1", features = ["full"] }
signal-hook = "0.3"
libc = "0.2"
session_types = "*"
