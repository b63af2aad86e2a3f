[package]
name = "eusei"
version = "0.1.0"
edition = "2021"
publish = false

[dependencies]
roxmltree = "0.20"
sha2 = "0.10"
subtle = "2"
serde = { version = "1", features = ["derive"] }
serde_json = "1"
axum = "0.8"
tokio = { version = "1", features = ["macros", "rt-multi-thread", "net", "signal", "time", "sync"] }
reqwest = { version = "0.12", default-features = false }
moka = { version = "0.12", features = ["future"] }
futures = "0.3"
tower-http = { version = "0.6", features = ["trace"] }
tracing = "0.1"
tracing-subscriber = { version = "0.3", features = ["env-filter", "fmt"] }
dotenvy = "0.15"
thiserror = "2"
