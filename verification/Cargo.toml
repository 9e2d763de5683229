[package]
name = "aer_st1"
version = "0.1.0"
edition = "2021"
publish = false

[dependencies]
anyhow = "=1.0.104"
chrono = "=0.4.45"
clap = { version = "=4.6.7", features = ["derive"] }
csv = "=1.4.0"
delta_kernel = { version = "=0.13.0", default-features = false }
deltalake = { version = "=0.27.0", default-features = false, features = ["rustls", "datafusion"] }
env_logger = { version = "=0.11.11", default-features = false }
futures = "=0.3.34"
log = "=0.4.34"
reqwest = { version = "=0.13.5", default-features = false }
serde = { version = "=1.0.229", features = ["derive"] }
serde_json = "=1.0.154"
tempfile = "=3.27.0"
thiserror = "=2.0.21"
tokio = { version = "=1.54.1", features = ["rt-multi-thread", "macros"] }
zip = { version = "=9.0.5", default-features = false }
