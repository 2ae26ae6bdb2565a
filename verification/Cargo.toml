[package]
name = "feedhub"
version = "0.1.0"
edition = "2021"
publish = false

[dependencies]
chrono = { version = "=0.4.45", default-features = false, features = ["std", "clock"] }
quick-xml = { version = "=0.42.0", features = ["escape-html"] }
roxmltree = "=0.21.2"
url = "=2.5.8"
serde = { version = "=1.0.229", features = ["derive"] }
serde_json = "=1.0.154"
tiny_http = "=0.12.0"
ureq = "=2.12.1"
clap = { version = "=4.6.7", features = ["derive"] }
