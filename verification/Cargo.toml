[package]
name = "jellyswarrm"
version = "0.1.0"
edition = "2021"
publish = false

[dependencies]
axum = "0.8"
chrono = { version = "0.4", features = ["serde"] }
governor = "0.10"
hex = "0.4"
hyper = "1"
jsonwebtoken = "9"
moka = { version = "0.12", features = ["future"] }
openidconnect = { version = "4", default-features = false, features = ["reqwest"] }
regex = "1"
reqwest = { version = "0.12", default-features = false, features = ["json"] }
serde = { version = "1", features = ["derive"] }
serde_json = "1"
sha2 = "0.10"
sqlx = { version = "0.8", default-features = false, features = ["sqlite", "runtime-tokio", "chrono", "derive"] }
thiserror = "2"
tokio = { version = "1", features = ["sync", "time", "rt", "macros"] }
tower-sessions = { version = "0.14", default-features = false, features = ["axum-core"] }
tracing = "0.1"
url = "2"
