[package]
name = "pankh"
version = "0.1.1"
edition = "2021"
publish = false

[dependencies]
pulldown-cmark = { version = "=0.11.3", default-features = false, features = ["html"] }
unicode-width = "=0.1.14"
syntect = { version = "=5.2.0", default-features = false, features = ["default-fancy"] }
ratatui = "=0.29.0"
crossterm = "=0.28.1"
arboard = { version = "=3.4.1", default-features = false }
clap = { version = "=4.5.61", features = ["derive"] }
serde = { version = "=1.0.229", features = ["derive"] }
serde_json = "=1.0.154"
tokio = { version = "=1.54.1", features = ["full"] }
notify = "=6.1.1"
rayon = "=1.10.0"
anyhow = "=1.0.104"
once_cell = "=1.21.4"
