[package]
name = "zenoh_shm"
version = "0.1.0"
edition = "2021"
publish = false

[dependencies]
rand = "=0.8.8"
shared_memory = "=0.12.4"
lockfree = "=0.5.1"
allocator-api2 = "=0.2.21"
async-std = "=1.13.2"
async-trait = "=0.1.92"
lazy_static = "=1.5.1"
log = "=0.4.34"
tokio = { version = "=1.54.1", features = ["rt-multi-thread", "net", "time", "io-util", "fs", "sync", "macros"] }
tokio-util = { version = "=0.7.20", features = ["rt"] }
rustls = "=0.22.4"
rustls-pemfile = "=2.2.0"
rustls-webpki = "=0.102.8"
tokio-rustls = "=0.25.0"
webpki-roots = "=0.26.11"
base64 = "0.21"
