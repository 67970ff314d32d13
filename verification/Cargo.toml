[package]
name = "rusty_crawler"
version = "0.1.0"
edition = "2021"
publish = false

[dependencies]
bracket-lib = "0.8"
legion = "0.4"
serde = { version = "1", features = ["derive"] }
ron = "0.8"
indexmap = "2"
