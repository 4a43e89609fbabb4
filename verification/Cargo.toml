[package]
name = "pastebin"
version = "0.1.0"
edition = "2021"
publish = false

[dependencies]
short-crypt = "*"
linked-hash-map = "*"
serde = { version = "1", features = ["derive"] }
serde_json = "1"
redis = "*"
actix-web = { version = "4", default-features = false, features = ["macros"] }
log = "*"
env_logger = "*"
dotenv = "*"
lazy_static = "*"
