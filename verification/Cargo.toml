[package]
name = "chrysalis"
version = "0.1.0"
edition = "2021"
publish = false

[dependencies]
uuid = { version = "*", features = ["v4"] }
serde = { version = "*", features = ["derive"] }
serde_json = "*"
tokio = { version = "*", features = ["rt", "sync", "macros", "time"] }
reqwest = { version = "*", default-features = false, features = ["json"] }
async-trait = "*"
