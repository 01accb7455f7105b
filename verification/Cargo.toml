[package]
name = "modulus"
version = "0.1.0"
edition = "2021"
publish = false

[dependencies]
color-eyre = "*"
directories = "*"
inquire = "*"
serde = { version = "*", features = ["derive"] }
toml = "*"
walkdir = "*"
