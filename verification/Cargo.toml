[package]
name = "sam-rs"
version = "0.1.0"
edition = "2021"
publish = false

[dependencies]
burn = { version = "=0.19.1", default-features = false }
image = { version = "0.25", default-features = false, features = ["jpeg", "png"] }
pyo3 = "0.27"
serde = { version = "1", features = ["derive"] }
