[package]
name = "reality"
version = "0.1.0"
edition = "2021"
publish = false

[dependencies]
base64 = "=0.13.1"
bytemuck = "1"
serde = { version = "1", features = ["derive"] }
sha2 = "=0.10.9"
toml_edit = "0.19"
