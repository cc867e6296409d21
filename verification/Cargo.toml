[package]
name = "geojson2kml"
version = "0.1.0"
edition = "2021"

[dependencies]
quick-xml = "*"
serde = { version = "1", features = ["derive"] }
serde_json = "1"
