[package]
name = "ordersheet"
version = "0.1.0"
edition = "2021"
publish = false

[dependencies]
calamine = "0.37"
rust_xlsxwriter = "0.101"
serde = { version = "1", features = ["derive"] }
tauri = { version = "2", default-features = false }
