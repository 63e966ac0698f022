[package]
name = "broker"
version = "0.1.0"
edition = "2021"
publish = false

[dependencies]
actix-web = "*"
bytes = "*"
env_logger = "*"
log = "*"
reqwest = { version = "*", default-features = false, features = ["json"] }
serde = { version = "*", features = ["derive"] }
serde_json = "*"
sqlx = { version = "*", default-features = false, features = ["runtime-tokio", "sqlite"] }
tokio = { version = "*", features = ["macros", "rt-multi-thread", "sync", "time"] }
