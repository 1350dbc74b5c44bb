[package]
name = "cordy"
version = "0.1.0"
edition = "2021"
publish = false

[dependencies]
anyhow = "1"
async-trait = "0.1"
base64 = "0.22"
eventsource-stream = "0.2"
futures = "0.3"
getrandom = "0.3"
ignore = "0.4"
regex = "1"
reqwest = { version = "0.12", default-features = false, features = ["json", "stream", "rustls-tls"] }
rmcp = { version = "*", features = ["client", "transport-child-process", "transport-streamable-http-client-reqwest"] }
semver = "1"
serde = { version = "1", features = ["derive"] }
serde_json = "1"
sha2 = "0.10"
similar = "2"
tokio = { version = "1", features = ["full"] }
tokio-util = "0.7"
toml = "0.9"
url = "2"
