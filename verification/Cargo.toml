[package]
name = "pooledsmtp"
version = "0.1.0"
edition = "2021"
publish = false

[dependencies]
base64 = "0.22"
chrono = "0.4"
crossbeam-channel = "0.5"
hostname = "0.4"
lettre = { version = "0.11", default-features = false, features = ["smtp-transport", "builder", "rustls-tls"] }
mailparse = "0.15"
rand = "0.8"
