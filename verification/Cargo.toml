[package]
name = "price_collector"
version = "0.1.0"
edition = "2021"
publish = false

[dependencies]
actix-web = { version = "4", default-features = false, features = ["macros"] }
chrono = "0.4"
clokwerk = "0.4"
dotenvy = "0.15"
ethers-contract = { version = "2", default-features = false, features = ["providers"] }
ethers-core = "2"
ethers-providers = { version = "2", default-features = false, features = ["rustls"] }
eyre = "0.6"
futures = "0.3"
hhmmss = "0.1"
lazy_static = "1"
redis = "0.25"
reqwest = { version = "0.11", default-features = false, features = ["json", "rustls-tls"] }
serde = { version = "1", features = ["derive"] }
serde_json = "1"
tokio = { version = "1", features = ["time"] }
tracing = "0.1"
tracing-bunyan-formatter = "0.3"
tracing-panic = "0.1"
tracing-subscriber = "0.3"
