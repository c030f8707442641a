[package]
name = "findexec"
version = "0.1.0"
edition = "2021"
publish = false

[dependencies]
users = "0.11"
clap = { version = "3", features = ["derive"] }
serde = { version = "1", features = ["derive"] }
serde_json = "1"
