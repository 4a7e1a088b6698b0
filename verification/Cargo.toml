[package]
name = "mcp_proxy_core"
version = "0.1.0"
edition = "2021"
publish = false

[dependencies]
anyhow = "*"
axum = "*"
base64 = "*"
chacha20poly1305 = "*"
futures = "*"
hex = "*"
hmac = "*"
jsonschema = "*"
openapiv3 = "*"
reqwest = { version = "*", default-features = false, features = ["json"] }
serde = { version = "*", features = ["derive"] }
serde_json = "*"
serde_yaml = "*"
sha2 = "*"
strsim = "*"
thiserror = "*"
tokio = { version = "*", features = ["full"] }
url = "*"
zeroize = "*"
