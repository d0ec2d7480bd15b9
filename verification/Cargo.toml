[package]
name = "jbod_mirror"
version = "0.1.0"
edition = "2021"
publish = false

[dependencies]
anyhow = "1"
axum = "0.8"
clap = { version = "4", features = ["derive"] }
glob = "0.3"
http = "1"
libc = "0.2"
log = "0.4"
logsy = "*"
rand = "0.9"
regex = "1"
serde = { version = "1", features = ["derive"] }
serde_json = "1"
tokio = { version = "1", features = ["rt-multi-thread", "net", "fs", "time", "io-util", "macros"] }
tokio-util = { version = "0.7", features = ["io"] }
ureq = "3"
