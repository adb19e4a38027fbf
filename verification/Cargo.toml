[package]
name = "mentat"
version = "0.1.0"
edition = "2021"
publish = false

[dependencies]
safetensors = "0.4"
memmap2 = "0.9"
serde = { version = "1", features = ["derive"] }
serde_json = "1"
clap = { version = "4", features = ["derive"] }
axum = "0.7"
tokio = { version = "1", features = ["full"] }
tracing = "0.1"
tracing-subscriber = "0.3"
chrono = "0.4"
dirs = "5"
ureq = "2"
rayon = "1"
