[package]
name = "vaultseed"
version = "0.1.0"
edition = "2021"
publish = false

[dependencies]
hex = "0.4"
uuid = { version = "1", features = ["v4"] }
getrandom = "0.3"
