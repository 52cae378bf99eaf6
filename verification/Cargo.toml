[package]
name = "quiz_scoreboard"
version = "0.1.0"
edition = "2021"
publish = false

[dependencies]
csv = "1.4.0"
serde = { version = "1.0.229", features = ["derive"] }
