[package]
name = "a_view"
version = "0.1.0"
edition = "2021"
publish = false

[dependencies]
chrono = "0.4"
encoding_rs = "0.8"
listeners = "*"
rusqlite = { version = "*", features = ["bundled"] }
serde = { version = "1", features = ["derive"] }
serde_json = "1"
