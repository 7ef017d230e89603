[package]
name = "skill_ladder"
version = "0.1.0"
edition = "2021"
publish = false

[dependencies]
skillratings = "*"
csv = "*"
serde = { version = "*", features = ["derive"] }
rusqlite = { version = "*", features = ["bundled"] }
