[package]
name = "rust_project_structure"
version = "0.1.0"
edition = "2021"
publish = false

[dependencies]
petgraph = "*"
anyhow = "*"
camino = "*"
clap = { version = "*", features = ["derive"] }
env_logger = "*"
log = "*"
serde = { version = "*", features = ["derive"] }
toml = "*"
walkdir = "*"
