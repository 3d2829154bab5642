[package]
name = "tabby_zj"
version = "0.1.0"
edition = "2021"
publish = false

[dependencies]
regex = "1"
chrono = "0.4"
unicode-width = "*"
emojis = "*"
serde = { version = "1", features = ["derive"] }
serde_json = "1"
serde_yaml_ng = "*"
zellij-tile = "*"
