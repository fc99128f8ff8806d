[package]
name = "ron_lsp"
version = "0.1.0"
edition = "2021"
publish = false

[dependencies]
proc-macro2 = { version = "1", features = ["span-locations"] }
quote = "1"
regex = "1"
ron-lsp-tree-sitter = "*"
syn = { version = "2", features = ["full", "extra-traits"] }
tokio = { version = "1", features = ["full"] }
tower-lsp = "0.20"
tree-sitter = "*"
walkdir = "2"
