[package]
name = "slowcatch"
version = "0.1.3"
edition = "2021"
publish = false

[dependencies]
anyhow = "*"
clap = { version = "*", features = ["derive"] }
everything-sdk = "*"
regex = "1"
serde = { version = "1", features = ["derive"] }
serde_json = "1"
toml = "*"
tree-sitter = "*"
tree-sitter-c = "*"
tree-sitter-cpp = "*"
tree-sitter-gdscript = "*"
tree-sitter-powershell = "*"
tree-sitter-python = "*"
tree-sitter-rust = "*"
