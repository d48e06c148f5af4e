[package]
name = "arena_common"
version = "0.1.0"
edition = "2021"
publish = false

[dependencies]
async-trait = "0.1"
bytes = "1"
reqwest = { version = "0.11", default-features = false, features = ["json", "multipart"] }
serde = { version = "1", features = ["derive"] }
serde_json = "1"
tokio = { version = "1", features = ["time"] }
tracing = "0.1"
url = "2"
zip = { version = "0.6", default-features = false, features = ["deflate"] }
