[package]
name = "operon_query"
version = "0.1.0"
edition = "2021"
publish = false

[dependencies]
arrow = { version = "=58.4.1", default-features = false }
arrow-flight = { version = "=58.4.1", features = ["flight-sql"] }
async-trait = "=0.1.92"
base64 = "=0.22.1"
bytes = "=1.12.1"
crc32c = "=0.6.9"
datafusion = { version = "=54.1.0", default-features = false }
futures = "=0.3.34"
http = "=1.5.0"
moka = { version = "=0.12.16", features = ["future"] }
postcard = { version = "=1.1.3", features = ["use-std"] }
prost = "=0.14.4"
roaring = "=0.12.0"
serde = { version = "=1.0.229", features = ["derive"] }
serde_json = "=1.0.154"
thiserror = "=2.0.21"
time = { version = "=0.3.55", features = ["formatting", "parsing", "macros"] }
tokio = { version = "=1.54.1", features = ["rt", "sync", "time", "macros"] }
tokio-util = { version = "=0.7.20", features = ["rt"] }
tonic = "=0.14.9"
tower = "=0.5.3"
tracing = "=0.1.44"
xxhash-rust = { version = "=0.8.19", features = ["xxh3"] }
