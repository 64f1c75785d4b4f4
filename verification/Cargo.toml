[package]
name = "merkle_tree"
version = "0.1.0"
edition = "2021"
publish = false

[dependencies]
digest = "0.10"
hex = "0.4"
sha2 = "0.10"
