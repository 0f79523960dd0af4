[package]
name = "atomic_core"
version = "0.1.0"
edition = "2021"
publish = false

[dependencies]
actix-web = { version = "4", default-features = false, features = ["macros"] }
chrono = "0.4"
chrono-tz = "*"
cron = "*"
pulldown-cmark = { version = "*", default-features = false }
regex = "1"
rusqlite = { version = "*", features = ["bundled"] }
serde = { version = "1", features = ["derive"] }
serde_json = "1"
sha2 = "0.10"
tokio = { version = "1", features = ["rt", "sync", "time", "macros"] }
tracing = "0.1"
url = "2"
utoipa = "*"
uuid = { version = "1", features = ["v4", "v7"] }
