[package]
name = "da_core"
version = "0.1.0"
edition = "2021"
publish = false

[dependencies]
jack = "*"
libloading = "*"
regex = "*"
serde = { version = "1", features = ["derive"] }
serde_yaml = "*"
