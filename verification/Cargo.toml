[package]
name = "constella_db"
version = "0.1.0"
edition = "2021"
publish = false

[dependencies]
sqlparser = "*"
serde = { version = "1", features = ["derive"] }
serde_json = "1"
bincode = "1"
tokio = { version = "1", features = ["full"] }
clap = { version = "4", features = ["derive"] }
uuid = { version = "1", features = ["v4"] }
axum = "*"
reqwest = { version = "*", default-features = false, features = ["json"] }
colored = "*"
comfy-table = "*"
rustyline = "*"
rand = "*"
tower-http = { version = "*", features = ["cors"] }
tracing = "*"
tracing-subscriber = "*"
thiserror = "*"
