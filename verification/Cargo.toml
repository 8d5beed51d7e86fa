[package]
name = "gpx_traite"
version = "0.1.0"
edition = "2021"
publish = false

[dependencies]
quick-xml = "*"
serde = { version = "1", features = ["derive"] }
serde_json = "1"
helix = "*"
