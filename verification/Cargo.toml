[package]
name = "semcs"
version = "0.1.0"
edition = "2021"
publish = false

[dependencies]
tree-sitter = "=0.27.1"
tree-sitter-language = "=0.1.9"
tree-sitter-python = "=0.25.0"
tree-sitter-typescript = "=0.23.2"
tree-sitter-haskell = "=0.24.1"
tree-sitter-rust = "=0.24.2"
tree-sitter-ruby = "=0.23.1"
tree-sitter-go = "=0.25.0"
tree-sitter-c-sharp = "=0.23.5"
tree-sitter-zig = "=1.1.2"
glob = "=0.3.4"
globset = "=0.4.21"
regex = "=1.13.1"
console = "=0.16.6"
serde = { version = "=1.0.229", features = ["derive"] }
serde_json = "=1.0.154"
shlex = "=2.0.1"
blake3 = "1"
toml = "*"
directories = "*"

[dev-dependencies]
tempfile = "=3.27.0"
