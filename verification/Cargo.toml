[package]
name = "axon"
version = "0.1.0"
edition = "2021"
publish = false

[dependencies]
agent-client-protocol = "=5.0.0"
anyhow = "=1.0.104"
async-trait = "=0.1.92"
clap = { version = "=4.6.7", features = ["derive"] }
futures = "=0.3.34"
ignore = "=0.4.34"
reqwest = { version = "=0.13.5", default-features = false, features = ["json"] }
serde = { version = "=1.0.229", features = ["derive"] }
serde_json = { version = "=1.0.154", features = ["preserve_order"] }
tokio = { version = "=1.54.1", features = ["rt", "macros"] }
toml_edit = "=0.25.17"
tracing = "=0.1.44"
tree-sitter = "=0.27.1"

[dev-dependencies]
toml = "*"
tree-sitter-rust = "=0.24.2"
