[package]
name = "chatvault"
version = "0.1.0"
edition = "2021"
publish = false

[dependencies]
anyhow = "=1.0.104"
async-trait = "=0.1.92"
axum = { version = "=0.8.9", features = ["multipart"] }
chrono = { version = "=0.4.45", features = ["serde"] }
imap = "=2.4.1"
mail-parser = "=0.11.9"
native-tls = "=0.2.18"
regex = "=1.13.1"
rust-s3 = { version = "=0.37.2", default-features = false, features = ["tokio-native-tls"] }
serde = { version = "=1.0.229", features = ["derive"] }
sqlx = { version = "=0.8.6", default-features = false, features = ["runtime-tokio", "postgres", "chrono"] }
tempfile = "=3.27.0"
tokio = { version = "=1.54.1", features = ["rt-multi-thread", "macros", "fs", "net", "time", "io-util"] }
tower-http = { version = "=0.6.11", features = ["cors", "fs", "trace"] }
tracing = "=0.1.44"
tracing-subscriber = { version = "=0.3.23", features = ["env-filter", "fmt"] }
urlencoding = "=2.1.3"
uuid = { version = "=1.29.0", features = ["v4"] }
zip = { version = "=9.2.2", default-features = false, features = ["deflate"] }
