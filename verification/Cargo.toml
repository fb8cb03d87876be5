[package]
name = "wan_party_bot"
version = "0.1.0"
edition = "2021"
publish = false

[dependencies]
rand = "0.8"
regex = "1"
chrono = "0.4"
once_cell = "1"
serde = { version = "1", features = ["derive"] }
serde_json = "1"
reqwest = { version = "0.12", default-features = false, features = ["json", "rustls-tls"] }
rusqlite = { version = "0.31", features = ["bundled"] }
serenity = { version = "0.12", default-features = false, features = ["builder", "cache", "chrono", "client", "gateway", "model", "http", "rustls_backend", "utils"] }
tokio = { version = "1", features = ["macros", "rt-multi-thread", "time", "sync"] }
