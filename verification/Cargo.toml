[package]
name = "purple_core"
version = "0.1.0"
edition = "2021"
publish = false

[dependencies]
blake2 = "0.10"
ed25519-dalek = "2"
rand = "0.8"
clap = "4"
