[package]
name = "orderbook"
version = "0.1.0"
edition = "2021"
publish = false

[dependencies]
crossbeam-channel = "0.5"
ulid = "1"
serde = { version = "1", features = ["derive"] }
async-stream = "0.3"
futures-util = "0.3"
async-graphql = { version = "*", default-features = false }
