[package]
name = "memoscore"
version = "0.1.0"
edition = "2021"
publish = false

[dependencies]
rusqlite = { version = "=0.40.2", features = ["bundled"] }
tantivy = "=0.26.2"
usearch = "=2.26.4"
serde_json = { version = "=1.0.151", features = ["float_roundtrip"] }
tempfile = "=3.27.0"
