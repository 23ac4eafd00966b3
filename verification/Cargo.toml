[package]
name = "rust_store"
version = "0.1.0"
edition = "2021"
publish = false

[dependencies]
rust_decimal = "=1.43.0"
serde_json = "=1.0.151"
async-graphql = { version = "=7.2.1", features = ["dataloader"] }
async-graphql-axum = "=7.2.1"
axum = "=0.8.9"
chrono = "=0.4.45"
dotenv = "=0.15.0"
sqlx = { version = "=0.9.0", default-features = false, features = ["postgres", "runtime-tokio", "rust_decimal", "json"] }
tokio = { version = "=1.53.2", features = ["rt-multi-thread", "macros", "net"] }
tower-http = { version = "=0.7.1", features = ["cors"] }
tracing-subscriber = { version = "=0.3.23", features = ["env-filter", "fmt"] }
