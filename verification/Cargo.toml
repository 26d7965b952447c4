[package]
name = "flowy_revision"
version = "0.1.0"
edition = "2021"
publish = false

[dependencies]
bincode = "1.3"
chrono = "0.4"
diesel = "1.4"
serde = { version = "1", features = ["derive"] }
uuid = { version = "1", features = ["v4"] }
