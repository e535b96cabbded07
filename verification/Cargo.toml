[package]
name = "guploadsync"
version = "0.1.0"
edition = "2021"
publish = false

[dependencies]
anyhow = "1"
chrono = "0.4"
clap = { version = "4", features = ["derive"] }
dirs = "*"
google-drive3 = "*"
md5 = "*"
mime = "0.3"
notify = "*"
rusqlite = "*"
serde = { version = "1", features = ["derive"] }
tokio = { version = "1", features = ["full"] }
tokio-util = "0.7"
toml = "*"
tracing = "0.1"
tracing-subscriber = { version = "0.3", features = ["env-filter"] }
trash = "*"
uuid = { version = "1", features = ["v5"] }
walkdir = "2"
