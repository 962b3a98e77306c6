[package]
name = "librqbit"
version = "0.1.0"
edition = "2021"
publish = false

[dependencies]
anyhow = "=1.0.104"
async-trait = "=0.1.92"
nix = { version = "=0.30.1", features = ["socket", "uio"] }
notify = "=8.2.1"
parking_lot = "=0.12.5"
postcard = { version = "=1.1.3", features = ["alloc"] }
rand = "=0.10.3"
thiserror = "2"
tokio = { version = "1", features = ["io-util", "macros", "net", "rt-multi-thread", "sync", "time"] }
tokio-util = "0.7"
tracing = "0.1"
