[package]
name = "ast_inspector"
version = "0.1.0"
edition = "2021"
publish = false

[dependencies]
tree-sitter = "*"
libloading = "*"
anyhow = "*"

[dev-dependencies]
tree-sitter-python = "*"
tree-sitter-rust = "*"
tree-sitter-typescript = "*"
