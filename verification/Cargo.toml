[package]
name = "eh2telegraph"
version = "0.1.0"
edition = "2021"
publish = false

[dependencies]
again = "0.1"
anyhow = "1"
chrono = "0.4"
clap = { version = "4", features = ["derive"] }
dptree = "0.3"
futures = "0.3"
ipnet = "2"
regex = "1"
reqwest = { version = "0.11", default-features = false, features = ["json", "rustls-tls"] }
serde = { version = "1", features = ["derive"] }
serde_json = "1"
serde_yaml = "0.9"
singleflight-async = "0.1"
takecell = "=0.1.1"
teloxide = { version = "0.12", default-features = false, features = ["macros", "rustls", "ctrlc_handler"] }
time = { version = "0.3", features = ["macros", "local-offset"] }
tokio = { version = "1", features = ["full"] }
tokio-util = "0.7"
tracing = "0.1"
tracing-subscriber = { version = "0.3", features = ["env-filter", "local-time"] }
