[package]
name = "odin"
version = "0.1.0"
edition = "2021"
publish = false

[dependencies]
scraper = "*"
clap = "2"
colored = "*"
reqwest = { version = "*", default-features = false, features = ["blocking"] }
serde = { version = "*", features = ["derive"] }
serde_json = "*"
shellexpand = "*"
term_size = "*"
