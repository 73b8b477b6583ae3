[package]
name = "dvf_pipeline"
version = "0.1.0"
edition = "2021"
publish = false

[dependencies]
arrow = "*"
chrono = "0.4"
csv = "1"
mylog = "*"
parquet = { version = "*", default-features = false, features = ["arrow", "snap"] }
regex = "1"
reqwest = { version = "0.12", default-features = false, features = ["json", "blocking", "rustls-tls"] }
serde = { version = "1", features = ["derive"] }
serde_json = "1"
tokio = { version = "1", features = ["rt-multi-thread", "macros", "time"] }
