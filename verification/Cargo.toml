[package]
name = "pknocker"
version = "0.1.0"
edition = "2021"
publish = false

[dependencies]
chrono = "0.4"
bytes = "1"
parquet = { version = "60", default-features = false }
ipnetwork = "*"
serde = { version = "1", features = ["derive"] }
serde_json = "1"
tokio = { version = "1", features = ["rt-multi-thread", "macros", "sync"] }
tracing = "0.1"
tracing-subscriber = "0.3"
once_cell = "1"
urlencoding = "2"
futures-util = "0.3"
diesel = { version = "2", default-features = false, features = ["postgres_backend", "chrono", "network-address"] }
diesel-async = { version = "*", features = ["postgres", "deadpool"] }
diesel-derive-enum = { version = "*", features = ["postgres"] }
tokio-postgres = "0.7"
