[package]
name = "ds-pinyin-lsp"
version = "0.1.0"
edition = "2021"
publish = false

[dependencies]
dashmap = "5"
lsp-document = "0.6"
rusqlite = "0.28"
serde_json = "1"
tokio = { version = "1", features = ["full"] }
tower-lsp = "0.17"
