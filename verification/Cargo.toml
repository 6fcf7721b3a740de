[package]
name = "newsroom"
version = "0.1.0"
edition = "2021"
publish = false

[dependencies]
image = { version = "*", default-features = false, features = ["png", "jpeg", "gif"] }
google-signin = "*"
serde = { version = "*", features = ["derive"] }
serde_json = "*"
