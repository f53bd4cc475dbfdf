[package]
name = "demo_api"
version = "0.1.0"
edition = "2021"
publish = false

[dependencies]
tide = "0.16"
async-std = { version = "1", features = ["attributes"] }
femme = "2"
serde = { version = "1", features = ["derive"] }
form_urlencoded = "1"
