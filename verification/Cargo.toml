[package]
name = "serde_envfile"
version = "0.1.0"
edition = "2021"
publish = false

[dependencies]
dotenvy = "0.15"
envy = "0.4"
indexmap = { version = "2", features = ["serde"] }
serde = { version = "1", features = ["derive"] }
thiserror = "2"
