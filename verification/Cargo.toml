[package]
name = "monoripple"
version = "0.1.0"
edition = "2021"
publish = false

[dependencies]
anyhow = "=1.0.104"
clap = { version = "=4.6.7", features = ["derive"] }
crossterm = "=0.28.1"
dirs = "6"
globset = "=0.4.21"
ignore = "=0.4.34"
json5 = "=0.4.1"
oxc_allocator = "=0.120.0"
oxc_ast = "=0.120.0"
oxc_parser = "=0.120.0"
oxc_resolver = "=11.24.3"
oxc_semantic = "=0.120.0"
oxc_span = "=0.120.0"
oxc_syntax = "=0.120.0"
path-clean = "=1.0.1"
ratatui = "=0.29.0"
rustc-hash = "=2.1.3"
serde = { version = "=1.0.229", features = ["derive"] }
serde_json = "=1.0.154"
serde_yaml = "=0.9.34"
sha2 = "=0.10.9"
tar = "=0.4.46"
tempfile = "=3.27.0"
thiserror = "=2.0.21"
tracing = "=0.1.44"
url = "=2.5.8"
which = "=7.0.3"
zstd = "0.13"
