[package]
name = "srvfs"
version = "0.1.0"
edition = "2021"
publish = false

[dependencies]
async-nats = "*"
fuser = { version = "0.14", default-features = false }
futures-util = "0.3"
libc = "0.2"
structopt = "0.3"
tokio = { version = "1", features = ["rt-multi-thread", "macros"] }
