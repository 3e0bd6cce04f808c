[package]
name = "rafs"
version = "0.1.0"
edition = "2021"
publish = false

[dependencies]
blake3 = { version = "*", features = ["pure"] }
sha2 = "*"
lz4_flex = "*"
flate2 = "*"
