[package]
name = "qemu_agent"
version = "0.1.0"
edition = "2021"
publish = false

[dependencies]
clap = { version = "=4.6.7", features = ["derive"] }
crossterm = "=0.29.0"
libc = "=0.2.191"
nix = { version = "=0.31.3", features = ["term", "process"] }
signal-hook = "=0.4.6"
sys-mount = { version = "=3.1.1", default-features = false }
tempdir = "=0.3.7"
