[package]
name = "ops_llm"
version = "0.1.0"
edition = "2021"
publish = false

[dependencies]
anyhow = "1"
async-trait = "0.1"
chrono = "0.4"
futures = "0.3"
rmcp = "*"
serde_json = "1"
tokio = { version = "1", features = ["sync", "macros", "rt", "time"] }
tracing = "0.1"
tracing-futures = "0.2"
