[package]
name = "velotype"
version = "0.1.0"
edition = "2021"
publish = false

[dependencies]
serde = { version = "1", features = ["derive"] }
serde_json = "1"
toml = "*"
unicode-segmentation = "1"
mermaid-rs-renderer = "*"
ironpress = "*"
directories = "*"
sys-locale = "*"
uuid = { version = "1", features = ["v4"] }
anyhow = "1"
