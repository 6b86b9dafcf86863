[package]
name = "nameful_cli"
version = "0.1.0"
edition = "2021"
publish = false

[dependencies]
serde_json = "*"
serde = { version = "*", features = ["derive"] }
color-eyre = "*"
reqwest = { version = "*", default-features = false, features = ["blocking", "json"] }
ratatui = "*"
toml = "*"
xdg = "*"
