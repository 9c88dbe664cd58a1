[package]
name = "vehicle_index"
version = "0.1.0"
edition = "2021"
publish = false

[dependencies]
csv = "1"
nlp = "*"
rusqlite = "*"
serde = { version = "1", features = ["derive"] }
serde_json = "1"

[dev-dependencies]
regex = "1"
