[package]
name = "sync"
version = "0.1.0"
edition = "2021"
publish = false

[dependencies]
md5 = "0.7"
lzzzz = "1"
chrono = "0.4"
hostname = "0.3"
bytes = "1"
tokio = { version = "1", features = ["full"] }
clap = { version = "3", features = ["derive"] }
serde = { version = "1", features = ["derive"] }
serde_json = "1"
fern = "0.6"
log = "0.4"
filetime = "0.2"
lazy_static = "1"
async-recursion = "1"
