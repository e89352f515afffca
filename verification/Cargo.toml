[package]
name = "wikipedia2jpdb"
version = "0.1.0"
edition = "2021"
publish = false

[dependencies]
regex = "1"
scraper = "*"
serde_json = "1"
mediawiki = "*"
tokio = { version = "1", features = ["macros", "rt-multi-thread"] }
futures = "0.3"
inquire = "*"
