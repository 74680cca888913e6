[package]
name = "spares"
version = "0.1.0"
edition = "2021"
publish = false

[dependencies]
fancy-regex = "=0.20.0"
serde = { version = "=1.0.229", features = ["derive"] }
serde_json = { version = "=1.0.154", features = ["preserve_order"] }
chrono = "=0.4.45"
rs-fsrs = "=1.2.1"
sha256 = { version = "1", default-features = false }
