[package]
name = "blogworm"
version = "0.1.0"
edition = "2021"
publish = false

[dependencies]
chrono = "=0.4.45"
scraper = { version = "=0.17.1", features = ["deterministic"] }
regex = "=1.13.1"
clap = "=2.34.0"
dirs = "=5.0.1"
reqwest = { version = "=0.11.27", default-features = false, features = ["rustls-tls"] }
tokio = { version = "=1.54.1", features = ["macros", "rt-multi-thread"] }
indicatif = "=0.17.11"
console = "=0.15.11"
colored = "=2.2.0"
serde = { version = "=1.0.229", features = ["derive"] }
serde_json = "=1.0.154"
