[package]
name = "sowback"
version = "0.1.0"
edition = "2021"
publish = false

[dependencies]
sha2 = "*"
hkdf = "*"
aes-gcm = "*"
rand = "*"
uuid = { version = "*", features = ["v4"] }
tokio = { version = "*", features = ["full"] }
clap = { version = "*", features = ["derive"] }
serde = { version = "*", features = ["derive"] }
toml = "*"
anyhow = "*"
tracing = "*"
tracing-subscriber = { version = "*", features = ["env-filter", "json"] }
tracing-appender = "*"
colored = "*"
chrono = "*"
atty = "*"
