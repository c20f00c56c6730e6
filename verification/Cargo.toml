[package]
name = "anttp_store"
version = "0.1.0"
edition = "2021"
publish = false

[dependencies]
sha2 = "*"
hex = "*"
base64 = "*"
chrono = "*"
actix-web = "*"
actix-cors = "*"
actix-multipart = "*"
futures = "*"
serde = { version = "*", features = ["derive"] }
serde_json = "*"
env_logger = "*"
log = "*"
bytes = "*"
anyhow = "*"
