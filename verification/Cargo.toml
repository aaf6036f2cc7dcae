[package]
name = "holdem"
version = "0.1.0"
edition = "2021"
publish = false

[dependencies]
poker = "*"
rand = "0.8"
uuid = { version = "1", features = ["v4"] }
serde = { version = "1", features = ["derive"] }
serde_json = "1"
actix-web = "4"
actix-cors = "0.7"
actix-session = { version = "0.10", features = ["cookie-session"] }
