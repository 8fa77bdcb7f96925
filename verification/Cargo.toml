[package]
name = "cyberls"
version = "0.1.0"
edition = "2021"
publish = false

[dependencies]
tree-sitter = "0.20"
lsp-types = "0.94"
tower-lsp = "*"
tokio = { version = "*", features = ["full"] }
serde = { version = "*", features = ["derive"] }
serde_json = "*"
serde_derive = "*"
clap = "*"
dashmap = "*"
glob = "*"
tracing = "*"
tracing-subscriber = "*"
tracing-appender = "*"
