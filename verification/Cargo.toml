[package]
name = "ebishrimp"
version = "0.1.0"
edition = "2021"
publish = false

[dependencies]
time = "=0.3.55"
form_urlencoded = "=1.2.2"
serde_json = "=1.0.154"
serde = { version = "=1.0.229", features = ["derive"] }
clickhouse = { version = "=0.15.3", features = ["time"] }
topcoat = "=0.3.1"
topcoat-core = "=0.3.1"
topcoat-core-macro = "=0.3.1"
topcoat-view = "=0.3.1"
topcoat-view-macro = "=0.3.1"
topcoat-router = "=0.3.1"
topcoat-router-macro = "=0.3.1"
topcoat-runtime = "=0.3.1"
topcoat-asset = "=0.3.1"
inventory = "=0.3.25"
rumqttc = { version = "=0.25.1", default-features = false }
tokio = { version = "=1.54.1", features = ["macros", "rt-multi-thread", "net", "time", "sync"] }
axum = "=0.8.9"
tracing = "=0.1.44"
tracing-subscriber = { version = "=0.3.23", features = ["env-filter"] }
rand = "=0.9.5"
anyhow = "=1.0.104"
