[package]
name = "ast_line_core"
version = "0.1.0"
edition = "2021"
publish = false

[dependencies]
anyhow = "1"
axum = "0.7"
clap = { version = "4", features = ["derive"] }
colored = "2"
futures = "0.3"
home = "0.5"
ignore = "0.4"
indicatif = "0.17"
regex = "1"
serde = { version = "1", features = ["derive"] }
serde_json = "1"
tokio = { version = "1", features = ["full"] }
tokio-stream = { version = "0.1", features = ["sync"] }
tower-http = { version = "0.5", features = ["cors"] }
tracing-subscriber = "0.3"
tree-sitter = "0.24"
tree-sitter-rust = "0.23"
uuid = { version = "1", features = ["v4"] }
