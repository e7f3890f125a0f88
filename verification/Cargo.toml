[package]
name = "fe_analyzer"
version = "0.1.0"
edition = "2021"
publish = false

[dependencies]
indexmap = "1.6.2"
smol_str = "0.1.17"
serde = { version = "1", features = ["derive"] }
