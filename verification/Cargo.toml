[package]
name = "code_graph"
version = "0.1.0"
edition = "2021"
publish = false

[dependencies]
anyhow = "1"
rusqlite = { version = "0.32", features = ["bundled"] }
serde = { version = "1", features = ["derive"] }
serde_json = "1"
tempfile = "3"
toml = "0.8"
tree-sitter = "0.24"
zstd = "0.13"

[dev-dependencies]
tree-sitter-python = "0.23"
tree-sitter-rust = "0.23"
