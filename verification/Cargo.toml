[package]
name = "localgpt_md"
version = "0.1.0"
edition = "2021"
publish = false

[dependencies]
blake3 = "1"
pulldown-cmark = { version = "0.13", default-features = false }
serde = { version = "1", features = ["derive"] }
serde_json = "1"
ron = "*"
localgpt-world-types = "*"
