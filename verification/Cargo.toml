[package]
name = "impact_scanner"
version = "0.1.0"
edition = "2021"
publish = false

[dependencies]
anyhow = "*"
clap = { version = "*", features = ["derive"] }
git2 = "*"
proc-macro2 = "*"
quote = "*"
syn = "*"
tree-sitter = "*"
tree-sitter-rust = "*"
walkdir = "*"
