[package]
name = "logseq_graph"
version = "0.1.0"
edition = "2021"
publish = false

[dependencies]
uuid = { version = "*", features = ["v4"] }
serde = { version = "*", features = ["derive"] }
markdown = "*"
walkdir = "*"
glob = "*"
tokio = { version = "*", features = ["rt", "macros"] }
clap = { version = "*", features = ["derive"] }
dotenv = "*"
anyhow = "*"
indicatif = "*"
meilisearch-sdk = "*"
