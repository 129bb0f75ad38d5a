[package]
name = "tickstream"
version = "0.1.0"
edition = "2021"
publish = false

[dependencies]
anyhow = "=1.0.104"
async-stream = "=0.3.6"
async-trait = "=0.1.92"
futures = "=0.3.34"
reqwest = { version = "=0.12.28", default-features = false, features = ["native-tls"] }
rust_decimal = "=1.43.0"
serde = { version = "=1.0.229", features = ["derive"] }
serde_json = "=1.0.154"
thiserror = "=1.0.69"
tokio = { version = "=1.54.1", features = ["macros", "net", "rt-multi-thread", "time"] }
tokio-tungstenite = { version = "=0.30.0", features = ["native-tls"] }
url = "=2.5.8"

[dev-dependencies]
bincode = "=1.3.3"
