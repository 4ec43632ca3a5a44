[package]
name = "hx_exec"
version = "0.1.0"
edition = "2021"
publish = false

[dependencies]
shell-words = "1"
serde = { version = "1", features = ["derive"] }
toml = "0.8"
clap = { version = "4", features = ["derive"] }
anyhow = "1"
