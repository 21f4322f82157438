[package]
name = "selene"
version = "0.1.0"
edition = "2021"
publish = false

[dependencies]
aes = "=0.9.3"
anyhow = "=1.0.104"
clap = { version = "=4.6.7", features = ["derive"] }
csv = "=1.4.0"
futures = "=0.3.34"
once_cell = "=1.21.4"
regex = "=1.13.1"
reqwest = { version = "=0.13.5", default-features = false, features = ["cookies", "multipart"] }
scraper = "=0.27.0"
tempfile = "=3.27.0"
tokio = { version = "=1.53.2", features = ["rt-multi-thread", "macros", "time", "fs", "io-util"] }
