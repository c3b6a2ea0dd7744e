[package]
name = "lookup"
version = "0.1.0"
edition = "2021"
publish = false

[dependencies]
regex = "1"
clap = { version = "4", features = ["derive"] }
colored = "2"
crossterm = "0.28"
serde_json = "1"
rand = "0.8"
