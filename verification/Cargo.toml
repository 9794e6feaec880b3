[package]
name = "bucketfs"
version = "0.1.0"
edition = "2021"
publish = false

[dependencies]
nix = "*"
libc = "*"
memmap2 = "*"
tokio = { version = "*", features = ["fs", "io-util", "rt", "sync"] }
