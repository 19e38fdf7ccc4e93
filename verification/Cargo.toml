[package]
name = "ds_sql_dps"
version = "0.1.0"
edition = "2021"
publish = false

[dependencies]
oxigraph = { version = "0.5", default-features = false }
uuid = { version = "1", features = ["v4"] }
chrono = "0.4"
serde = { version = "1", features = ["derive"] }
serde_json = "1"
thiserror = "2"
anyhow = "1"
tokio = { version = "1", features = ["macros", "rt-multi-thread", "net", "fs", "signal"] }
axum = "0.8"
axum-extra = { version = "0.10", features = ["typed-header"] }
tracing = "0.1"
tracing-subscriber = { version = "0.3", features = ["env-filter"] }
async-trait = "0.1"
dataplane-sdk = "=0.1.2"
dataplane-sdk-axum = "=0.1.2"
reqwest = { version = "0.12", default-features = false, features = ["json"] }
