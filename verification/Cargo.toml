[package]
name = "waiting_room"
version = "0.1.0"
edition = "2021"
publish = false

[dependencies]
ulid = "*"
chrono = "*"
cookie = "*"
http = "*"
anyhow = "*"
spin-sdk = "*"
