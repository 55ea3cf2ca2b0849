[package]
name = "dagger"
version = "0.1.0"
edition = "2021"
publish = false

[dependencies]
anyhow = "1"
cargo_metadata = "0.18"
clap = { version = "4", features = ["derive"] }
comfy-table = "7"
crossterm = "0.27"
dotenvy = "0.15"
petgraph = "0.6"
ratatui = "0.26"
reqwest = { version = "0.12", features = ["json"] }
serde = { version = "1", features = ["derive"] }
serde_json = "1"
thiserror = "1"
tokio = { version = "1", features = ["full"] }
toml_edit = "0.22"
tree-sitter = "0.20"
tree-sitter-rust = "0.20"
walkdir = "2"
