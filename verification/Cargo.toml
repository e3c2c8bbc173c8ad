[package]
name = "pricing"
version = "0.1.0"
edition = "2021"
publish = false

[dependencies]
csv = "=1.4.0"
serde = { version = "=1.0.229", features = ["derive"] }
axum = "=0.7.9"
askama = "0.14"
tokio = { version = "=1.54.1", features = ["macros", "rt-multi-thread", "net"] }
once_cell = "=1.21.4"
