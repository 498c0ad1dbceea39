[package]
name = "tracker_scrape"
version = "0.1.0"
edition = "2021"
publish = false

[dependencies]
hex = "0.4"
rand = "0.8"
chrono = "0.4"
urlencoding = "2.1"
serde = { version = "1.0", features = ["derive"] }
serde_json = "1.0"
reqwest = { version = "0.11", default-features = false }
scraper = "0.17"
tokio = { version = "1", features = ["rt-multi-thread", "macros", "time"] }
