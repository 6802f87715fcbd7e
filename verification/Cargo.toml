[package]
name = "plexo_relay"
version = "0.1.0"
edition = "2021"
publish = false

[dependencies]
base64 = "*"
openssl = "*"
chrono = "*"
subtle = "*"
serde = { version = "*", features = ["derive"] }
serde_json = "*"
actix-web = "*"
actix-cors = "*"
dashmap = "*"
futures-util = "*"
tokio = { version = "*", features = ["macros", "rt-multi-thread", "time"] }
reqwest = { version = "*", features = ["json"] }
log = "*"
env_logger = "*"
dotenvy = "*"
