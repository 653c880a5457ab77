[package]
name = "mail_laser"
version = "3.0.5"
edition = "2021"
publish = false

[dependencies]
anyhow = "1"
log = "0.4"
mailparse = "0.18"
tokio = { version = "1", features = ["io-util"] }
