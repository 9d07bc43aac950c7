[package]
name = "open_db_viewer"
version = "0.1.0"
edition = "2021"
publish = false

[dependencies]
serde = { version = "1", features = ["derive"] }
serde_json = "1"
tokio = { version = "1", features = ["rt-multi-thread", "macros", "sync"] }
tokio-postgres = { version = "0.7", features = ["with-chrono-0_4", "with-uuid-1", "with-serde_json-1"] }
redis = { version = "0.25", features = ["tokio-comp"] }
futures-util = "0.3"
async-trait = "0.1"
chrono = "0.4"
uuid = "1"
rust_decimal = { version = "1", features = ["db-tokio-postgres"] }
keyring = { version = "2", default-features = false }
