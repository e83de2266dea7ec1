[package]
name = "nexfilm_engine"
version = "0.1.0"
edition = "2021"
publish = false

[dependencies]
base64 = "0.22"
sha2 = "0.10"
serde = { version = "1", features = ["derive"] }
serde_json = "1"
rusqlite = "*"
image = "0.25"
imageproc = "*"
nalgebra = "*"
rayon = "1"
dashmap = "*"
tokio = { version = "1", features = ["sync"] }
