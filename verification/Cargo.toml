[package]
name = "usage_accountant"
version = "0.1.0"
edition = "2021"
publish = false

[dependencies]
chrono = "*"
rdkafka = { version = "*", default-features = false }

[dev-dependencies]
serde_json = "*"
