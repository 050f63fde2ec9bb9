[package]
name = "sirbone"
version = "0.1.0"
edition = "2021"
publish = false

[dependencies]
anyhow = "1"
arboard = { version = "=3.7.0", default-features = false, features = ["image-data"] }
async-openai = { version = "=0.43.0", features = ["chat-completion", "model"] }
async-trait = "0.1"
base64 = "=0.22.1"
chrono = { version = "=0.4.45", default-features = false, features = ["std", "clock"] }
dirs = "=7.0.0"
futures = "0.3"
png = "=0.17.16"
regex = "=1.13.1"
reqwest = { version = "=0.13.5", default-features = false, features = ["json", "stream", "rustls"] }
serde = { version = "1", features = ["derive"] }
serde_json = "=1.0.154"
tokio = { version = "1", features = ["full"] }
tokio-util = "0.7"
tracing = "0.1"
url = "=2.5.8"
