[package]
name = "sitegen"
version = "0.1.0"
edition = "2021"
publish = false

[dependencies]
anyhow = "*"
chrono = { version = "*", features = ["serde"] }
clap = { version = "*", features = ["derive"] }
minijinja = "*"
phonenumber = "*"
ron = "*"
serde = { version = "*", features = ["derive"] }
serde_json = "*"
