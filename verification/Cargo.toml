[package]
name = "mysql_translate"
version = "0.1.0"
edition = "2021"
publish = false

[dependencies]
anyhow = "=1.0.104"
clap = { version = "=4.6.7", features = ["derive"] }
crossterm = "=0.29.0"
dialoguer = "=0.12.0"
dotenvy = "=0.15.7"
mysql = { version = "=28.0.3", default-features = false, features = ["minimal-rust", "derive", "buffer-pool"] }
serde = { version = "=1.0.229", features = ["derive"] }
serde_json = "=1.0.151"
