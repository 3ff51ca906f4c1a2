[package]
name = "jarman"
version = "0.1.0"
edition = "2021"
publish = false

[dependencies]
regex = "=1.13.1"
serde = { version = "=1.0.229", features = ["derive"] }
rocket = { version = "0.5", features = ["json"] }
powershell_script = "=1.1.0"
