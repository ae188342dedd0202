[package]
name = "seaf-loop"
version = "0.1.0"
edition = "2021"
publish = false

[dependencies]
hex = "=0.4.3"
libc = "=0.2.191"
serde = { version = "=1.0.229", features = ["derive"] }
serde_json = "=1.0.154"
sha2 = "=0.10.9"
