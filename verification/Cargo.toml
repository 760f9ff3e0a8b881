[package]
name = "punch"
version = "0.1.0"
edition = "2021"
publish = false

[dependencies]
chrono = "*"
clap = "*"
colored = "*"
ansi_term = "*"
dirs = "*"
serde = { version = "*", features = ["derive"] }
csv = "*"
