[package]
name = "badger_groups"
version = "0.1.0"
edition = "2021"

[dependencies]
rand = "0.7"
csv = "1"
serde = { version = "1", features = ["derive"] }
