[package]
name = "guide_sync"
version = "0.1.0"
edition = "2021"
publish = false

[dependencies]
chrono = "0.4"
dotenv = "0.15"
reqwest = { version = "0.11", default-features = false, features = ["rustls-tls"] }
sea-orm = { version = "0.12", features = ["sqlx-postgres", "runtime-tokio-rustls", "macros", "with-chrono"] }
serde = { version = "1", features = ["derive"] }
serde-xml-rs = "0.6"
tokio = { version = "1", features = ["macros", "rt-multi-thread"] }
