[package]
name = "lsp_client_pool"
version = "0.1.0"
edition = "2021"
publish = false

[dependencies]
anyhow = "1"
lsp-types = "0.95"
regex = "1"
serde_json = "1"
tracing = "0.1"
