[package]
name = "eww_config"
version = "0.1.0"
edition = "2021"
publish = false

[dependencies]
anyhow = "*"
derive_more = { version = "*", features = ["full"] }
roxmltree = "*"
serde = { version = "*", features = ["derive"] }
