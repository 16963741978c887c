[package]
name = "docstore"
version = "0.1.0"
edition = "2021"
publish = false

[dependencies]
actix-cors = "*"
actix-files = "*"
actix-multipart = "*"
actix-web = "*"
async-stream = "*"
bytes = "*"
chrono = "*"
env_logger = "*"
futures = "*"
hex = "*"
log = "*"
nanoid = "*"
ring = "*"
serde = { version = "*", features = ["derive"] }
serde_json = "*"
tokio = { version = "*", features = ["sync", "rt-multi-thread", "macros", "time"] }
