[package]
name = "sui_snapshot"
version = "0.1.0"
edition = "2021"
publish = false

[dependencies]
anyhow = "1"
backoff = { version = "0.4", features = ["tokio"] }
bcs = "0.1"
byteorder = "1"
futures = "0.3"
integer-encoding = "3"
object_store = "0.6"
serde = { version = "1", features = ["derive"] }
tokio = { version = "1", features = ["rt", "rt-multi-thread", "sync", "macros"] }
tokio-stream = "0.1"
