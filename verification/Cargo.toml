[package]
name = "pgcache_writer"
version = "0.1.0"
edition = "2021"
publish = false

[dependencies]
postgres-protocol = "*"
postgres-types = "*"
lru = "*"
ecow = "*"
tokio = { version = "1", features = ["rt", "macros", "sync", "time"] }
tokio-postgres = "*"
tokio-stream = "*"
tokio-util = "*"
futures-util = "*"
tracing = "*"
rootcause = "*"
