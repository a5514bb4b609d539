[package]
name = "tagged"
version = "0.1.0"
edition = "2021"
publish = false

[dependencies]
clap = { version = "4", features = ["derive"] }
dirs = "*"
inquire = "*"
ron = "*"
rusqlite = "*"
serde = { version = "1", features = ["derive"] }
symlink = "*"
toml = "*"
