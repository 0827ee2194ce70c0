[package]
name = "rebase-indexer"
version = "0.1.0"
edition = "2021"
publish = false

[dependencies]
sha2 = "*"
hex = "*"
tree-sitter = "*"
tree-sitter-rust = "*"
tree-sitter-go = "*"
tree-sitter-python = "*"
tree-sitter-javascript = "*"
tree-sitter-typescript = "*"
tree-sitter-php = "*"
tree-sitter-java = "*"
tree-sitter-c = "*"
tree-sitter-cpp = "*"
tree-sitter-ruby = "*"
tree-sitter-css = "*"
tree-sitter-html = "*"
tree-sitter-elixir = "*"
tree-sitter-erlang = "*"
ignore = "*"
reqwest = { version = "*", default-features = false, features = ["json"] }
tokio = { version = "*", features = ["rt-multi-thread", "macros"] }
clap = { version = "*", features = ["derive"] }
serde = { version = "*", features = ["derive"] }
serde_json = "*"
anyhow = "*"
flate2 = "*"
tar = "*"
futures = "*"
arrow-array = "*"
arrow-schema = "*"

[dev-dependencies]
tempfile = "*"
