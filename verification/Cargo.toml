[package]
name = "constellation_dns"
version = "0.1.0"
edition = "2021"
publish = false

[dependencies]
async-trait = "*"
serde = { version = "=1.0.229", features = ["derive"] }
serde_json = "=1.0.151"
tokio = { version = "=1.53.2", features = ["rt-multi-thread", "macros", "net"] }
trust-dns-proto = "=0.23.2"
trust-dns-server = "=0.23.2"
