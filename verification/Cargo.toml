[package]
name = "smolcar"
version = "0.1.0"
edition = "2021"
publish = false

[dependencies]
rusqlite = { version = "*", features = ["bundled"] }
chrono = { version = "*", default-features = false, features = ["clock", "std"] }
serde = { version = "*", features = ["derive"] }
serde_json = "*"
axum = { version = "*", default-features = false, features = ["http1", "json", "tokio"] }
tokio = { version = "*", features = ["macros", "rt-multi-thread", "sync", "net"] }
