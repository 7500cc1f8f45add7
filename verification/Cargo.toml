[package]
name = "diachrony"
version = "0.1.0"
edition = "2021"
publish = false

[dependencies]
chumsky = "0.9"
serde = { version = "1", features = ["derive"] }
