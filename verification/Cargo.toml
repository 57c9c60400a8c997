[package]
name = "storage_sqlite"
version = "0.1.0"
edition = "2021"
publish = false

[dependencies]
rust_decimal = "1"
uuid = { version = "1", features = ["v4", "v5"] }
chrono = "0.4"
diesel = { version = "2", features = ["sqlite"] }
serde = { version = "1", features = ["derive"] }
anyhow = "1"
async-trait = "0.1"
