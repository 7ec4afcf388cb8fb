[package]
name = "mpd_easy"
version = "0.1.0"
edition = "2021"
publish = false

[dependencies]
chrono = "*"
mpd = "*"
eyre = "*"
serde = { version = "*", features = ["derive"] }
serde_json = "*"
clap = { version = "*", features = ["derive"] }
