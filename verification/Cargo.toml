[package]
name = "mwemu_core"
version = "0.1.0"
edition = "2021"
publish = false

[dependencies]
ahash = "0.8"
slab = "0.4"
serde = { version = "1", features = ["derive"] }
