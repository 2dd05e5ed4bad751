[package]
name = "safe_fluent"
version = "0.1.0"
edition = "2021"
publish = false

[dependencies]
nonempty = "*"
tree-sitter = "*"
tree-sitter-sequel = "*"
tree-sitter-java = "*"
texter = "*"
tower-lsp-server = "*"
tower-lsp = "*"
tokio = { version = "1", features = ["full"] }
tokio-util = { version = "*", features = ["codec"] }
futures = "*"
futures-util = "*"
dashmap = "*"
serde = { version = "1", features = ["derive"] }
serde_json = "1"
httparse = "*"
log = "*"
lazy_static = "*"
tower = { version = "*", features = ["util"] }
stderrlog = "*"
fastrace = "*"
