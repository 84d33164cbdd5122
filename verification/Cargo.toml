[package]
name = "codeindex"
version = "0.1.0"
edition = "2021"
publish = false

[dependencies]
ignore = "*"
notify = "*"
tree-sitter = "*"
tree-sitter-python = "*"
