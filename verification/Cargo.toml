[package]
name = "rustsearch"
version = "0.1.0"
edition = "2021"
publish = false

[dependencies]
jwalk = "*"
libsql = "*"
notify = "*"
serde = { version = "*", features = ["derive"] }
tokio = { version = "*", features = ["full"] }
toml = "*"
