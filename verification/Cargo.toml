[package]
name = "launcher"
version = "0.1.0"
edition = "2021"
publish = false

[dependencies]
sha2 = "*"
zip = "*"
serde = { version = "*", features = ["derive"] }
serde_yaml = "*"
reqwest = { version = "*", default-features = false }
tokio = { version = "*", features = ["full"] }
shellexpand = "*"
bytes = "*"
