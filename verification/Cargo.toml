[package]
name = "nudge"
version = "0.1.0"
edition = "2021"
publish = false

[dependencies]
clap = "4"
rayon = "1"
walkdir = "2"
tree-sitter = "*"
tree-sitter-rust = "*"
tree-sitter-go = "*"
tree-sitter-swift = "*"

[dev-dependencies]
lazy-regex = "*"
