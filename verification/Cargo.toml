[package]
name = "hochanh"
version = "0.1.0"
edition = "2021"
publish = false

[dependencies]
pulldown-cmark = "=0.13.6"
serde = { version = "=1.0.229", features = ["derive"] }
serde_yaml = "=0.9.34"
tera = { version = "=1.20.1", default-features = false }
tiny_http = "=0.12.0"
clap = { version = "=4.6.7", features = ["derive"] }
