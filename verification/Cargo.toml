[package]
name = "token_voting"
version = "0.1.0"
edition = "2021"
publish = false

[dependencies]
cosmwasm-std = "1.5"
serde = { version = "1", features = ["derive"] }
schemars = "0.8"
