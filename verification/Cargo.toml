[package]
name = "martin"
version = "0.1.0"
edition = "2021"
publish = false

[dependencies]
base64 = "0.22"
lz4_flex = "0.11"
serde_json = "1"
clap = { version = "4", features = ["derive"] }
