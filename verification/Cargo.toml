[package]
name = "mosaic"
version = "0.1.0"
edition = "2021"
publish = false

[dependencies]
image = { version = "*", default-features = false, features = ["jpeg"] }
axum = "*"
http = "*"
tokio = { version = "*", features = ["macros", "net", "rt-multi-thread", "sync"] }
log = "*"
env_logger = "*"
serde = { version = "*", features = ["derive"] }
serde_json = "*"
toml = "*"
rusqlite = { version = "*", features = ["bundled"] }
