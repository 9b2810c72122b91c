[package]
name = "spnhub"
version = "0.1.0"
edition = "2021"
publish = false

[dependencies]
arc-swap = "1"
bollard = "0.19"
chrono = "0.4"
clap = { version = "4", features = ["derive", "env"] }
k8s-openapi = { version = "0.26", features = ["latest"] }
kube = "2"
quinn = "0.11"
reqwest = { version = "0.12", default-features = false, features = ["json", "rustls-tls"] }
rustls = { version = "0.23", default-features = false, features = ["ring", "std", "logging", "tls12"] }
serde = { version = "1", features = ["derive"] }
serde_json = "1"
thiserror = "2"
tokio = { version = "1", features = ["full"] }
tracing = "0.1"
tracing-subscriber = { version = "0.3", features = ["env-filter", "json"] }
x509-parser = "0.18"
