[package]
name = "scma_gcal_sync"
version = "0.1.0"
edition = "2021"
publish = false

[dependencies]
anyhow = "1"
chrono = { version = "0.4", features = ["serde"] }
clap = { version = "4", features = ["derive", "env"] }
futures = "0.3"
google-calendar3 = "*"
google-people1 = "*"
hyper = "1"
hyper-rustls = "*"
hyper-util = "*"
indexmap = "2"
reqwest = { version = "0.12", default-features = false, features = ["cookies", "rustls-tls"] }
select = "0.6"
serde = { version = "1", features = ["derive"] }
serde_json = "1"
serde_yaml = "0.9"
tokio = { version = "1", features = ["macros", "rt-multi-thread"] }
tracing = "0.1"
tracing-subscriber = { version = "0.3", features = ["env-filter"] }
yup-oauth2 = "*"
