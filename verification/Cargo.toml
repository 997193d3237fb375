[package]
name = "dandelion"
version = "0.1.0"
edition = "2021"
publish = false

[dependencies]
lru = "=0.12.5"
ipnetwork = "=0.20.0"
regex = "=1.13.1"
tungstenite = "=0.24.0"
sha2 = "=0.10.9"
iso3166-1 = "=1.0.1"
reqwest = "=0.12.28"
maxminddb = { version = "=0.24.0", features = ["mmap"] }
tokio = { version = "=1.54.1", features = ["full"] }
anyhow = "=1.0.104"
serde = { version = "=1.0.229", features = ["derive"] }
ron = "=0.8.1"
chrono = "=0.4.45"
futures = "=0.3.34"
structopt = "=0.3.26"
tokio-tungstenite = "=0.24.0"
tokio-native-tls = "=0.3.1"
hyper = { version = "=1.12.0", features = ["server", "client", "http1"] }
hyper-util = { version = "=0.1.21", features = ["tokio"] }
http-body-util = "=0.1.5"
http = "=1.5.0"
hickory-resolver = "=0.25.2"
flate2 = "1"
tar = "0.4"
