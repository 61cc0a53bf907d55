[package]
name = "c4c"
version = "0.1.0"
edition = "2021"
publish = false

[dependencies]
quick-xml = "0.38"
serde = { version = "1", features = ["derive"] }
serde_json = "1"
