[package]
name = "bandits"
version = "0.1.0"
edition = "2021"
publish = false

[dependencies]
argh = "0.1"
log = "0.4"
ordered-float = { version = "4", features = ["serde"] }
puruspe = "*"
rand = "0.8"
serde = { version = "1", features = ["derive"] }
serde_json = "1"
