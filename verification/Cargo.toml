[package]
name = "gogoanime_scraper"
version = "0.1.0"
edition = "2021"
publish = false

[dependencies]
scraper = "=0.29.0"
reqwest = { version = "=0.13.5", features = ["json", "cookies", "form"] }
tokio = { version = "=1.54.1", features = ["full"] }
futures = "=0.3.34"
serde_json = "=1.0.154"
chrono = "=0.4.45"
colored = "=3.1.1"
dirs = "=7.0.0"
download_rs = { version = "=0.2.0", features = ["sync_download"] }
lazy_static = "=1.5.1"
