[package]
name = "textrank_summary"
version = "0.1.0"
edition = "2021"
publish = false

[dependencies]
anyhow = "1"
axum = { version = "0.8", default-features = false, features = ["macros", "json", "http1", "tokio"] }
candle-core = "0.9"
candle-nn = "0.9"
candle-transformers = "0.9"
derive_more = { version = "2", features = ["from"] }
hf-hub = { version = "0.4", default-features = false, features = ["ureq"] }
safetensors = "0.4"
serde = { version = "1", features = ["derive"] }
serde_json = "1"
tokenizers = { version = "0.21", default-features = false, features = ["onig"] }
tokio = { version = "1", features = ["macros", "rt-multi-thread", "net"] }
