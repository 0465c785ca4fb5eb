[package]
name = "openapi_fdw"
version = "0.4.0"
edition = "2021"
publish = false

[dependencies]
serde = { version = "1", features = ["derive"] }
serde_json = "1"
serde_yaml_ng = "*"
url = "2"
percent-encoding = "2"
sha2 = "0.10"
subtle = "2"
httpdate = "1"
uuid = { version = "1", features = ["v4"] }
thiserror = "*"
anyhow = "1"
reqwest = { version = "0.12", default-features = false, features = ["blocking", "json", "rustls-tls"] }
axum = "0.8"
tokio = { version = "1", features = ["full"] }
deadpool-postgres = "*"
tokio-postgres = "*"
tracing = "0.1"
tracing-subscriber = { version = "0.3", features = ["env-filter"] }
maud = "*"
