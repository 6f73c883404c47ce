[package]
name = "liquid_ml"
version = "0.1.0"
edition = "2021"
publish = false

[dependencies]
bincode = "1"
log = "0.4"
serde = { version = "1", features = ["derive"] }
sorer = "*"
tokio = { version = "1", features = ["full"] }
tokio-util = { version = "0.7", features = ["codec"] }
