[package]
name = "solution_view"
version = "0.1.0"
edition = "2021"
publish = false

[dependencies]
anyhow = "1"
quick-xml = "0.38"
schemars = "1"
serde = { version = "1", features = ["derive"] }
serde_json = "1"
