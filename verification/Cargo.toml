[package]
name = "sven"
version = "0.1.0"
edition = "2021"
publish = false

[dependencies]
dirs = "*"
base64 = "*"
clap = { version = "*", features = ["derive"] }
daemonize = "*"
dialoguer = "*"
gpgme = "*"
rusqlite = { version = "*", features = ["bundled"] }
