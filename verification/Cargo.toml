[package]
name = "gitea-ci-autoscaler"
version = "0.2.0"
edition = "2021"
publish = false

[dependencies]
anyhow = "1"
async-trait = "0.1"
chrono = "0.4"
hcloud = "*"
k8s-openapi = { version = "*", features = ["latest"] }
kube = "*"
prometheus = "*"
reqwest = { version = "0.12", default-features = false, features = ["json", "rustls-tls"] }
serde = { version = "1", features = ["derive"] }
serde_json = "1"
thiserror = "2"
tokio = { version = "1", features = ["full"] }
tracing = "0.1"
tracing-subscriber = { version = "0.3", features = ["env-filter", "json"] }
uuid = { version = "1", features = ["v4"] }
