[package]
name = "csp_flatten"
version = "0.1.0"
edition = "2021"
publish = false

[dependencies]
noyalib = { version = "=0.0.5", default-features = false, features = ["std"] }
serde = { version = "=1.0.229", features = ["derive"] }
serde_yml = "=0.0.13"
