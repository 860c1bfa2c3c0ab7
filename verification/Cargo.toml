[package]
name = "indexer"
version = "0.1.0"
edition = "2021"
publish = false

[dependencies]
serde = { version = "1", features = ["derive"] }
rmp-serde = "1"
rand = "0.8"
clap = { version = "3", features = ["derive"] }
dotenv = "0.15"
ordered-float = "3"
tracing = "0.1"
tracing-subscriber = { version = "0.3", features = ["env-filter"] }
