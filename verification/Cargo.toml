[package]
name = "agent"
version = "0.1.0"
edition = "2021"
publish = false

[dependencies]
ratatui = "=0.30.2"
crossterm = "=0.29.0"
regex = "=1.13.1"
serde = { version = "=1.0.229", features = ["derive"] }
serde_json = "=1.0.154"
serde_yaml = "=0.9.34"
toml = "=1.1.8"
tokio = { version = "=1.54.1", features = ["full"] }
pulldown-cmark = "=0.13.6"
clap = { version = "=4.6.7", features = ["derive"] }
dirs = "=7.0.0"
futures = "=0.3.34"
async-openai = { version = "=0.43.0", features = ["responses", "byot"] }
walkdir = "=2.5.0"
glob = "=0.3.4"
base64 = "=0.23.1"
tracing = "=0.1.44"
tracing-subscriber = "=0.3.23"
tracing-opentelemetry = "=0.34.0"
opentelemetry = "=0.33.1"
opentelemetry_sdk = "=0.33.1"
opentelemetry-otlp = "=0.33.1"

[dev-dependencies]
tempfile = "=3.27.0"
