[package]
name = "pos_engine"
version = "0.1.0"
edition = "2021"
publish = false

[dependencies]
rusqlite = { version = "*", features = ["bundled"] }
bcrypt = "*"
uuid = { version = "*", features = ["v4"] }
serde = { version = "*", features = ["derive"] }
