[package]
name = "cargo-udeps"
version = "0.1.0"
edition = "2021"
publish = false

[dependencies]
ansi_term = "0.12"
cargo = "0.41"
failure = "0.1"
serde = { version = "1", features = ["derive"] }
serde_json = "1"
structopt = "0.3"
