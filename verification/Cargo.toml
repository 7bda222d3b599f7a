[package]
name = "luna_mux"
version = "0.1.0"
edition = "2021"
publish = false

[dependencies]
async-trait = "=0.1.92"
chrono = "=0.4.45"
dirs = "=7.0.0"
futures = "=0.3.34"
keyring = { version = "=3.6.3", default-features = false }
libc = "=0.2.191"
mysql_async = { version = "=0.37.1", default-features = false, features = ["minimal", "rustls-tls", "tls12", "ring"] }
portable-pty = "=0.9.0"
rusqlite = { version = "=0.41.1", features = ["bundled"] }
serde = { version = "=1.0.229", features = ["derive"] }
serde_json = "=1.0.154"
sqlparser = "=0.63.0"
tokio = { version = "=1.54.1", features = ["rt-multi-thread", "net", "time", "sync", "macros", "io-util"] }
tokio-postgres = "=0.7.18"
tokio-postgres-rustls = { version = "=0.14.0", features = ["native-certs", "ring"] }
url = "=2.5.8"
uuid = { version = "=1.29.0", features = ["v4"] }
