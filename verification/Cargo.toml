[package]
name = "grouped_aggregate"
version = "0.1.0"
edition = "2021"
publish = false

[dependencies]
metrics = "*"
serde = { version = "1", features = ["derive"] }
