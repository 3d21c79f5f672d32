[package]
name = "crates_no"
version = "0.1.0"
edition = "2021"
publish = false

[dependencies]
tantivy = "=0.22.1"
serde = { version = "=1.0.229", features = ["derive"] }
serde_json = "=1.0.154"
reqwest = { version = "=0.12.28", default-features = false, features = ["blocking", "json"] }
tera = { version = "=1.20.1", default-features = false }
walkdir = "=2.5.0"
clap = "=4.6.7"
itertools = "=0.13.0"
error-chain = "=0.12.4"
collection_macros = "=0.2.0"
rocket = { version = "0.5", default-features = false }

[dev-dependencies]
tempfile = "=3.27.0"
