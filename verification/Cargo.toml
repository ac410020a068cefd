[package]
name = "bcon"
version = "0.1.0"
edition = "2021"
publish = false

[dependencies]
flate2 = "=1.1.10"
image = { version = "=0.24.9", default-features = false, features = ["png"] }
unicode-width = "=0.1.14"
unicode-normalization = "=0.1.26"
vte = "=0.13.1"
anyhow = "1"
log = "0.4"
libc = "0.2"
nix = { version = "0.29", features = ["term", "process", "fs", "signal", "user"] }
