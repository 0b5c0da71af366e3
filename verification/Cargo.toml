[package]
name = "gitnapped"
version = "0.1.0"
edition = "2021"
publish = false

[dependencies]
chrono = "0.4"
clap = "4"
colored = "2"
regex = "1"
serde = { version = "1", features = ["derive"] }
serde_yaml = "0.9"
