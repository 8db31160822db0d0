[package]
name = "otushw_web_back"
version = "0.1.0"
edition = "2021"
publish = false

[dependencies]
argon2 = "=0.6.0"
jsonwebtoken = { version = "=11.1.0", default-features = false, features = ["rust_crypto"] }
uuid = { version = "=1.27.0", features = ["v4", "serde"] }
actix-web = "*"
actix-web-httpauth = "*"
bb8 = "*"
bb8-postgres = "*"
tokio-postgres = { version = "*", features = ["with-uuid-1", "with-chrono-0_4"] }
postgres = { version = "*", features = ["with-uuid-1", "with-chrono-0_4"] }
chrono = { version = "*", features = ["serde"] }
serde = { version = "*", features = ["derive"] }
env_logger = "*"
envy = "*"
log = "*"
refinery = { version = "*", features = ["postgres"] }
thiserror = "*"
