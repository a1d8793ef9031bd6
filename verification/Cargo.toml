[package]
name = "bili_sync"
version = "0.1.0"
edition = "2021"
publish = false

[dependencies]
reqwest = { version = "=0.12.28", default-features = false, features = ["json", "rustls-tls"] }
handlebars = "=6.4.4"
prost = "=0.13.5"
lettre = { version = "=0.11.23", default-features = false, features = ["builder", "smtp-transport", "tokio1", "tokio1-rustls-tls"] }
tokio = { version = "=1.54.1", features = ["fs", "sync", "time", "io-util", "rt", "macros"] }
serde = { version = "=1.0.229", features = ["derive"] }
serde_json = "=1.0.154"
anyhow = "=1.0.104"
dunce = "=1.0.5"
futures = "=0.3.34"
uuid = { version = "=1.29.0", features = ["v4"] }
sha1 = "0.10"
