[package]
name = "yarat"
version = "0.1.0"
edition = "2021"
publish = false

[dependencies]
rust_decimal = "1.33"
serde = { version = "1", features = ["derive"] }
actix-web = "4"
actix-cors = "0.7"
env_logger = "0.11"
log = "0.4"
tokio = { version = "1", features = ["macros", "rt-multi-thread"] }
