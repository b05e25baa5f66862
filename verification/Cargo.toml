[package]
name = "gable"
version = "0.1.0"
edition = "2021"
publish = false

[dependencies]
chrono = "0.4"
serde = { version = "1", features = ["derive"] }
serde_json = "1"
lazy_static = "1"
once_cell = "1"
rayon = "1"
umya-spreadsheet = "2"
notify = "8"
