[package]
name = "gitpm"
version = "0.1.0"
edition = "2021"
publish = false

[dependencies]
clap = { version = "*", features = ["derive"] }
directories = "*"

[dev-dependencies]
serde_json = "*"
