[package]
name = "greentic_messaging"
version = "0.1.0"
edition = "2021"
publish = false

[dependencies]
url = "=2.5.8"
base64 = "=0.22.1"
urlencoding = "=2.1.3"
regex = "=1.13.1"
serde = { version = "=1.0.229", features = ["derive"] }
serde_json = "=1.0.154"
anyhow = "=1.0.104"
thiserror = "=2.0.21"
tokio = { version = "=1.54.1", features = ["rt-multi-thread", "macros", "sync", "time"] }
axum = "=0.8.9"
async-trait = "=0.1.92"
clap = { version = "=4.6.7", features = ["derive"] }
handlebars = "=6.4.4"
greentic-types = "=1.2.38173118925"
zip = "=9.2.2"
reqwest = { version = "=0.12.28", default-features = false, features = ["json"] }
rand = "=0.8.8"
hmac = "=0.12.1"
sha2 = "=0.10.9"
blake3 = { version = "1", features = ["pure"] }
