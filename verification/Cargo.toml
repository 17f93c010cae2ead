[package]
name = "mirrord_steal"
version = "0.1.0"
edition = "2021"
publish = false

[dependencies]
httparse = "=1.10.1"
fancy-regex = "=0.11.0"
tokio = { version = "=1.54.1", features = ["net", "io-util", "sync", "rt", "macros"] }
tokio-util = { version = "=0.7.20", features = ["io"] }
tokio-stream = "=0.1.19"
streammap-ext = "=0.1.0"
futures = "=0.3.34"
hyper = { version = "=0.14.32", features = ["client", "server", "http1", "runtime"] }
bytes = "=1.12.1"
iptables = "=0.5.3"
bincode = "=2.0.1"
thiserror = "=1.0.69"
tracing = "=0.1.44"
libc = "=0.2.191"
