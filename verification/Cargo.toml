[package]
name = "georename"
version = "0.1.0"
edition = "2021"
publish = false

[dependencies]
kamadak-exif = "*"
reqwest = { version = "*", default-features = false }
serde = { version = "*", features = ["derive"] }
serde_json = "*"
tokio = { version = "*", features = ["macros", "rt-multi-thread"] }
