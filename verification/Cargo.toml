[package]
name = "html_template_scraper"
version = "0.1.0"
edition = "2021"
publish = false

[dependencies]
url = "*"
scraper = "*"
reqwest = { version = "*", default-features = false, features = ["blocking"] }
