[package]
name = "telos"
version = "0.1.0"
edition = "2021"
publish = false

[dependencies]
sha2 = "0.10"
serde_json = "1"
clap = { version = "4", features = ["derive"] }
