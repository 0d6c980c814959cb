[package]
name = "wos_kernel"
version = "0.1.0"
edition = "2021"
publish = false

[dependencies]
im = "15.1.0"
serde = { version = "1", features = ["derive"] }
serde_json = "1"
thiserror = "1"
