[package]
name = "webcrawler"
version = "0.1.0"
edition = "2021"
publish = false

[dependencies]
clap = "2"
crossbeam-deque = "0.8"
crossbeam-utils = "0.8"
reqwest = { version = "0.12", features = ["blocking"] }
scraper = "*"
url = "2"
