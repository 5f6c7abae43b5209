[package]
name = "adb_tool"
version = "0.1.0"
edition = "2021"
publish = false

[dependencies]
zip = "*"
serde = { version = "*", features = ["derive"] }
serde_json = "*"
dirs = "*"
chrono = "*"
