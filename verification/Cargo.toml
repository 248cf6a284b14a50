[package]
name = "bankai_hints"
version = "0.1.0"
edition = "2021"
publish = false

[dependencies]
sha2 = "*"
serde = { version = "*", features = ["derive"] }
serde_json = "*"
thiserror = "*"
alloy-primitives = "*"
