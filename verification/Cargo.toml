[package]
name = "ghfeed"
version = "0.1.0"
edition = "2021"
publish = false

[dependencies]
chrono = "0.4"
clap = { version = "4", features = ["derive"] }
colored = "2"
json = "0.12"
textwrap = "0.16"
