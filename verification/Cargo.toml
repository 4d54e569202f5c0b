[package]
name = "civic_core"
version = "0.1.0"
edition = "2021"
publish = false

[dependencies]
anyhow = "*"
rusqlite = { version = "*", features = ["bundled"] }
serde = { version = "*", features = ["derive"] }
serde_json = "*"
serde_yaml = "*"
toml = "*"
time = { version = "*", features = ["formatting", "macros"] }
