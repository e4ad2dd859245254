[package]
name = "dns_gateway"
version = "0.1.0"
edition = "2021"
publish = false

[dependencies]
anyhow = "=1.0.104"
async-trait = "=0.1.92"
clap = { version = "=4.6.7", features = ["derive", "env"] }
env_logger = "=0.11.11"
futures-util = "=0.3.34"
log = "=0.4.34"
reqwest = { version = "=0.13.5", default-features = false }
tokio = { version = "=1.53.2", features = ["rt-multi-thread", "macros", "net"] }
trust-dns-client = "=0.23.2"
trust-dns-server = "=0.23.2"
