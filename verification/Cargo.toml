[package]
name = "cardano_web_wallet_analyser"
version = "0.1.0"
edition = "2021"
publish = false

[dependencies]
cardano-connector = "*"
