[package]
name = "eddie_crawler"
version = "0.1.0"
edition = "2021"
publish = false

[dependencies]
mediawiki = "*"
serde_json = "1"
tokio = { version = "1", features = ["rt-multi-thread", "macros"] }
