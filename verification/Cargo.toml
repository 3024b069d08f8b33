[package]
name = "subs_tracker"
version = "0.1.0"
edition = "2021"
publish = false

[dependencies]
roxmltree = "*"
easy-scraper = "*"
serde = { version = "*", features = ["derive"] }
serde_json = "*"
reqwest = { version = "*", default-features = false }
tokio = { version = "*", features = ["macros", "rt-multi-thread", "time"] }
tokio_schedule = "*"
html-escape = "*"
