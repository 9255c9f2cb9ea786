[package]
name = "osmium"
version = "0.1.0"
edition = "2021"
publish = false

[dependencies]
rand = "0.8"
base64 = "*"
serde = { version = "*", features = ["derive"] }
serde_json = "*"
serde_yaml = "*"
thiserror = "*"
image = { version = "*", default-features = false, features = ["png"] }
