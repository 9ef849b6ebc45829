[package]
name = "learned_cat"
version = "0.1.0"
edition = "2021"
publish = false

[dependencies]
rand = "0.8"
chrono = "0.4"
serde = { version = "1.0", features = ["derive"] }
bincode = "1.3"
toml = "0.8"
clap = "4"
