[package]
name = "game_core"
version = "0.1.0"
edition = "2021"
publish = false

[dependencies]
anyhow = "1"
ggez = { version = "0.9", default-features = false }
glam = { version = "*", features = ["mint"] }
libloading = "*"
serde = { version = "1", features = ["derive"] }
serde_json = "1"
sparsey = "*"
