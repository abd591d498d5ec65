[package]
name = "dst_admin_rust"
version = "0.1.0"
edition = "2021"
publish = false

[dependencies]
getrandom = "0.3"
serde = { version = "1", features = ["derive"] }
serde_json = "1"
yaml_serde = "*"
chrono = "0.4"
chrono-tz = "0.10"
