[package]
name = "ridi_router"
version = "0.1.0"
edition = "2021"
publish = false

[dependencies]
serde = { version = "=1.0.229", features = ["derive"] }
serde_json = "=1.0.154"
thiserror = "=2.0.21"
gpx = "=0.10.0"
geo = "=0.33.1"
json-tools = "=1.1.3"
