[package]
name = "nylon"
version = "0.1.0"
edition = "2021"
publish = false

[dependencies]
uuid = { version = "=1.29.0", features = ["v4", "v7"] }
chrono = "=0.4.45"
sha1 = "=0.10.7"
base64 = "=0.22.1"
num_cpus = "=1.17.0"
matchit = "=0.8.6"
serde = { version = "=1.0.229", features = ["derive"] }
serde_json = "=1.0.154"
serde_yaml_ng = "=0.10.0"
rmp-serde = "=1.3.1"
clap = { version = "=4.6.7", features = ["derive"] }
thiserror = "=2.0.21"
flatbuffers = "=24.12.23"
regex = "=1.13.1"
lru = "=0.19.0"
dashmap = "6"

[dev-dependencies]
