[package]
name = "netcalyx"
version = "0.1.0"
edition = "2021"
publish = false

[dependencies]
anyhow = "1"
async-channel = "2"
byteorder = "1"
bytes = "1"
either = "1"
ipnet = "2"
opentelemetry = "*"
quick-xml = "*"
rdkafka = "*"
rustc-hash = "2"
schema-registry-client = "*"
serde = { version = "1", features = ["derive"] }
serde_json = "1"
strum_macros = "*"
tokio = { version = "1", features = ["macros", "rt", "sync", "time"] }
tokio-util = { version = "0.7", features = ["codec"] }
tracing = "0.1"
yang4 = "*"
