[package]
name = "runner"
version = "0.1.0"
edition = "2021"
publish = false

[dependencies]
ulid = "*"
serde = { version = "*", features = ["derive"] }
log = "*"
env_logger = "*"
envman = "*"
more-convert = "*"
thiserror = "*"
axum = "*"
tokio = { version = "*", features = ["macros", "rt-multi-thread", "signal"] }
