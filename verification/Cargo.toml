[package]
name = "modmapper"
version = "0.1.0"
edition = "2021"
publish = false

[dependencies]
anyhow = "1"
argh = "0.1"
chrono = "0.4"
compress-tools = "*"
dotenv = "0.15"
futures = "0.3"
humansize = "2"
infer = "*"
reqwest = { version = "0.12", default-features = false, features = ["json", "stream", "rustls-tls"] }
seahash = "4"
serde = { version = "1", features = ["derive"] }
serde_json = "1"
skyrim-cell-dump = "*"
sqlx = { version = "0.8", default-features = false, features = ["postgres", "runtime-tokio", "chrono", "json"] }
tempfile = "3"
tokio = { version = "1", features = ["full"] }
tokio-util = { version = "0.7", features = ["compat"] }
tracing = "0.1"
tracing-subscriber = "0.3"
unrar = "*"
walkdir = "2"
