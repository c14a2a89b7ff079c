[package]
name = "etch"
version = "0.1.0"
edition = "2021"
publish = false

[dependencies]
serde = { version = "1", features = ["derive"] }
serde_json = "1"
toml = "0.8"
minijinja = { version = "1", features = ["loader", "custom_syntax"] }
minijinja-contrib = "1"
ignore = "0.4"
clap = { version = "4", features = ["derive"] }
