[package]
name = "fusion"
version = "0.1.0"
edition = "2021"
publish = false

[dependencies]
anyhow = "1"
calamine = "0.24"
headless_chrome = "1.0"
lopdf = "0.32"
nanoid = "0.4"
once_cell = "1"
regex = "1"
serde = { version = "1", features = ["derive"] }
serde_json = "1"
tera = "1"
