[package]
name = "modbreeze"
version = "0.1.0"
edition = "2021"
publish = false

[dependencies]
anyhow = "=1.0.104"
chrono = "=0.4.45"
clap = { version = "=4.0.32", features = ["derive"] }
dirs = "=4.0.0"
ferinth = "=2.7.4"
fern = "=0.6.2"
fs_extra = "=1.3.0"
furse = "=1.5.9"
futures = "=0.3.34"
hyper-util = "=0.1.2"
indicatif = "=0.17.11"
itertools = "=0.10.5"
libium = "=1.21.2"
log = "=0.4.34"
promptly = "=0.3.1"
rayon = "=1.12.0"
reqwest = "=0.11.27"
serde = { version = "=1.0.229", features = ["derive"] }
serde_json = "=1.0.154"
thiserror = "=1.0.69"
tokio = { version = "=1.22.0", features = ["full"] }
toml = "=0.5.11"
url = { version = "=2.2.2", features = ["serde"] }
