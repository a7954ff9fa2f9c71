[package]
name = "arxiv-bluesky-bot"
version = "0.1.0"
edition = "2021"
publish = false

[dependencies]
anyhow = "1"
bsky-sdk = "0.1"
chrono = "0.4"
chrono-tz = "0.10"
reqwest = { version = "0.12", default-features = false, features = ["rustls-tls"] }
rss = "2"
tokio = { version = "1", features = ["macros", "rt-multi-thread", "time"] }
unicode-segmentation = "1"
