[package]
name = "shiren"
version = "0.1.0"
edition = "2021"
publish = false

[dependencies]
serde_json = "=1.0.154"
nvim-oxi = { version = "=0.6.0", features = ["neovim-0-10"] }
