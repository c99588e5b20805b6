[package]
name = "php_checker"
version = "0.1.0"
edition = "2021"
publish = false

[dependencies]
anyhow = "=1.0.104"
clap = { version = "=4.6.7", features = ["derive"] }
glob = "=0.3.4"
indicatif = "=0.17.11"
notify = "=6.1.1"
rayon = "=1.12.0"
serde = { version = "=1.0.229", features = ["derive"] }
serde_json = "=1.0.154"
serde_yaml = "=0.9.34"
tree-sitter = "=0.20.10"
tree-sitter-php = "=0.20.0"
walkdir = "=2.5.0"
