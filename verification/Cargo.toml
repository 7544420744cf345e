[package]
name = "pathkeep"
version = "0.1.0"
edition = "2021"
publish = false

[dependencies]
clap = { version = "4", features = ["derive"] }
directories = "5"
ignore = "0.4"
serde = { version = "1", features = ["derive"] }
toml = "0.8"
