[package]
name = "cliutils"
version = "0.1.0"
edition = "2021"
publish = false

[dependencies]
ansi_term = "0.12"
chrono = "0.4"
clap = { version = "4", features = ["derive"] }
csv = "1"
rand = "0.8"
regex = "1"
tabular = "0.2"
users = "0.11"
walkdir = "2"
