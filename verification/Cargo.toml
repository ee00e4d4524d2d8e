[package]
name = "vault_store"
version = "0.1.0"
edition = "2021"
publish = false

[dependencies]
anyhow = "*"
async-nats = "*"
chrono = "*"
futures = "*"
protobuf = "*"
sqlx = { version = "*", default-features = false, features = ["runtime-tokio", "postgres", "chrono", "uuid"] }
tokio = { version = "*", features = ["macros", "rt-multi-thread", "time"] }
tracing = "*"
tracing-subscriber = { version = "*", features = ["env-filter", "fmt"] }
