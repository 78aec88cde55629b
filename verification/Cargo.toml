[package]
name = "dwara_core"
version = "0.1.0"
edition = "2021"
publish = false

[dependencies]
async-trait = "=0.1.92"
bytes = "=1.12.1"
chrono = "=0.4.45"
governor = "=0.10.4"
h3 = "=0.0.8"
h3-quinn = "=0.0.10"
http = "=1.5.0"
http-body-util = "=0.1.5"
hyper = { version = "=1.12.0", features = ["client", "http1"] }
jsonschema = { version = "=0.60.2", default-features = false }
k8s-openapi = { version = "=0.29.0", features = ["latest"] }
kube = { version = "=5.0.0", default-features = false, features = ["client", "rustls-tls"] }
moka = { version = "=0.12.16", features = ["sync"] }
prometheus = { version = "=0.14.0", default-features = false }
quinn = "=0.11.12"
redis = { version = "=1.8.1", features = ["tokio-comp", "connection-manager", "script"] }
regex = "=1.13.1"
rustls = "=0.23.46"
serde = { version = "=1.0.229", features = ["derive"] }
serde_json = "=1.0.154"
serde_yaml_ng = "=0.10.0"
tokio = { version = "=1.54.1", features = ["full"] }
tokio-rustls = "=0.26.6"
tonic = "=0.14.9"
tracing = "=0.1.44"
webpki-roots = "=1.0.10"
