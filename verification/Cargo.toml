[package]
name = "invman"
version = "0.1.0"
edition = "2021"
publish = false

[dependencies]
argon2 = { version = "=0.5.3", features = ["std"] }
clap = { version = "=4.6.7", features = ["derive"] }
rusqlite = { version = "=0.40.2", features = ["bundled"] }
