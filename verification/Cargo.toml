[package]
name = "hack_toolchain"
version = "0.1.0"
edition = "2021"
publish = false

[dependencies]
tree-sitter = "=0.20.10"
tree-sitter-jack = "=0.1.1"

[dev-dependencies]
nom = "=7.1.3"
