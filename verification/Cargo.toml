[package]
name = "mcp_guard"
version = "0.1.0"
edition = "2021"
publish = false

[dependencies]
url = "2"
regex = "1"
similar = "2"
globset = "0.4"
anyhow = "1"
axum = "*"
chrono = "0.4"
clap = { version = "4", features = ["derive"] }
futures = "0.3"
ignore = "0.4"
once_cell = "1"
rmcp = { version = "*", features = ["server", "macros", "transport-streamable-http-server"] }
serde = { version = "1", features = ["derive"] }
serde_json = "1"
tempfile = "3"
tokio = { version = "1", features = ["full"] }
tracing = "0.1"
tracing-subscriber = { version = "0.3", features = ["env-filter"] }
uuid = { version = "1", features = ["v4"] }
pyo3 = "*"
