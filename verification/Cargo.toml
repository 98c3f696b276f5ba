[package]
name = "basset_hound"
version = "0.1.0"
edition = "2021"
publish = false

[dependencies]
nix = { version = "=0.31.3", features = ["signal", "process", "user"] }
libc = "=0.2.191"
clap = { version = "=4.6.7", features = ["derive"] }
libbpf-rs = "=0.27.2"
