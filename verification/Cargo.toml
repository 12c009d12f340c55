[package]
name = "snapchain"
version = "0.1.0"
edition = "2021"
publish = false

[dependencies]
blake3 = "=1.8.7"
informalsystems-malachitebft-core-types = "=0.5.0"
libp2p = { version = "=0.56.0", default-features = false, features = ["ed25519"] }
prost = "=0.13.5"
ractor = "=0.16.5"
thiserror = "=1.0.69"
tokio = { version = "=1.54.1", default-features = false, features = ["sync", "time", "macros", "rt"] }
tonic = "=0.12.3"
tracing = "=0.1.44"
