[package]
name = "transactify"
version = "0.1.0"
edition = "2021"
publish = false

[dependencies]
anyhow = "*"
bigdecimal = { version = "*", features = ["serde"] }
clap = { version = "*", features = ["derive"] }
csv-async = { version = "*", features = ["tokio", "with_serde"] }
log = "*"
pretty_env_logger = "*"
serde = { version = "*", features = ["derive"] }
tokio = { version = "*", features = ["fs", "io-util", "macros", "rt-multi-thread"] }
tokio-stream = "*"
