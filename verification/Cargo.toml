[package]
name = "memini"
version = "0.1.0"
edition = "2021"
publish = false

[dependencies]
url = "*"
anyhow = "*"
chrono = "*"
crossterm = "*"
directories = "*"
mcp-protocol-sdk = { version = "*", default-features = false, features = ["http"] }
ratatui = "*"
reqwest = { version = "*", default-features = false, features = ["json"] }
rice-sdk = "*"
serde = { version = "*", features = ["derive"] }
serde_json = "*"
tokio = { version = "*", features = ["rt-multi-thread", "time", "sync"] }
