[package]
name = "augur"
version = "0.12.0"
edition = "2021"
publish = false

[dependencies]
arrow = { version = "49", default-features = false }
base64 = "0.21"
chrono = "=0.4.38"
csv = "1"
dotenv = "0.15"
futures-util = "0.3"
hmac = "0.12"
libc = "0.2"
parquet = { version = "49", default-features = false, features = ["arrow", "snap"] }
reqwest = { version = "0.11", default-features = false, features = ["json", "rustls-tls"] }
serde = { version = "1", features = ["derive"] }
serde_json = "1"
sha2 = "0.10"
tokio = { version = "1", features = ["full"] }
tokio-tungstenite = { version = "0.20", features = ["rustls-tls-webpki-roots"] }
tracing = "0.1"
tracing-subscriber = "0.3"
url = "2"
