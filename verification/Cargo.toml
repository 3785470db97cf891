[package]
name = "credential_registry"
version = "0.1.0"
edition = "2021"
publish = false

[dependencies]
chrono = { version = "=0.4.45", features = ["serde"] }
diesel = { version = "=1.4.8", features = ["postgres", "chrono"] }
serde = { version = "=1.0.229", features = ["derive"] }
