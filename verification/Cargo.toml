[package]
name = "admin_presence"
version = "0.1.0"
edition = "2021"
publish = false

[dependencies]
sodiumoxide = "0.2"
base64 = "0.13"
bcrypt = "0.15"
jsonwebtoken = "8"
serde = { version = "1", features = ["derive"] }
serde_json = "1"
uuid = { version = "1", features = ["v4"] }
axum = { version = "0.6", features = ["headers"] }
tokio = { version = "1", features = ["rt-multi-thread", "macros", "net"] }
dns-lookup = "1"
