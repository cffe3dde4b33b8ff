[package]
name = "memory_storage"
version = "0.1.0"
edition = "2021"
publish = false

[dependencies]
actix = { version = "0.8", default-features = false }
log = "0.4"
serde = { version = "1", features = ["derive"] }
