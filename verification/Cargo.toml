[package]
name = "hotcarpet"
version = "0.1.0"
edition = "2021"
publish = false

[dependencies]
anyhow = "=1.0.104"
chrono = "=0.4.45"
clap = { version = "=4.6.7", features = ["derive"] }
comfy-table = "=7.2.2"
git2 = { version = "=0.20.4", default-features = false }
globset = "=0.4.21"
oxc_allocator = "=0.120.0"
oxc_ast = "=0.120.0"
oxc_ast_visit = "=0.120.0"
oxc_parser = "=0.120.0"
oxc_span = "=0.120.0"
oxc_syntax = "=0.120.0"
proc-macro2 = { version = "=1.0.107", features = ["span-locations"] }
quote = "=1.0.47"
rayon = "=1.12.0"
serde = { version = "=1.0.229", features = ["derive"] }
serde_json = "=1.0.154"
syn = { version = "=2.0.119", features = ["full", "visit"] }
toml = "=0.9.8"
tree-sitter = "=0.25.10"
tree-sitter-go = "=0.25.0"
tree-sitter-kotlin-sg = "=0.4.1"
tree-sitter-scala = "=0.26.4"
