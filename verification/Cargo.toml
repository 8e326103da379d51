[package]
name = "open_feature_flagd"
version = "0.1.0"
edition = "2021"
publish = false

[dependencies]
murmurhash3 = "=0.0.5"
semver = "=1.0.28"
tonic = "=0.14.9"
tracing = "=0.1.44"
serde = { version = "=1.0.229", features = ["derive"] }
serde_json = "=1.0.154"
datalogic-rs = "=5.0.1"
open-feature = "=0.3.0"
tokio = { version = "=1.54.1", features = ["full"] }
async-trait = "=0.1.92"
opentelemetry = "*"
tracing-opentelemetry = "*"
notify = "*"
