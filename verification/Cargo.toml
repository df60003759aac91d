[package]
name = "shelfarrs"
version = "0.1.0"
edition = "2021"
publish = false

[dependencies]
anyhow = "1"
argon2 = "=0.5.3"
async-trait = "0.1"
axum = { version = "0.8", default-features = false, features = ["form", "http1", "json", "query", "tokio"] }
base64 = "=0.22.1"
extism = { version = "=1.13.0", default-features = false }
maud = "0.27"
rand = "=0.8.8"
reqwest = { version = "=0.12.28", default-features = false, features = ["json", "rustls-tls"] }
serde = { version = "1", features = ["derive"] }
serde_json = "=1.0.154"
sha2 = "=0.10.9"
sqlx = { version = "0.8", default-features = false, features = ["runtime-tokio", "sqlite"] }
tokio = { version = "1", features = ["rt-multi-thread", "macros", "net", "time"] }
tower = { version = "0.5", features = ["util"] }
tower-http = { version = "0.6", default-features = false, features = ["fs"] }
tracing = "0.1"
tracing-subscriber = { version = "0.3", default-features = false, features = ["env-filter", "fmt"] }
ureq = { version = "=2.12.1", default-features = false, features = ["tls"] }
zip = { version = "=2.6.1", default-features = false, features = ["deflate"] }
