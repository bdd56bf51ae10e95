[package]
name = "dur"
version = "0.1.0"
edition = "2021"
publish = false

[dependencies]
actix-web = "*"
clap = "*"
serde = { version = "*", features = ["derive"] }
toml = "*"
