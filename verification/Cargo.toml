[package]
name = "print3rs"
version = "0.1.0"
edition = "2021"
publish = false

[dependencies]
itoa = "1"
ryu = "1"
serde = { version = "1", features = ["derive"] }
thiserror = "1"
tokio = { version = "1", features = ["sync", "io-util", "rt", "macros", "time", "net", "fs"] }
tokio-serial = "5"
tracing = "0.1"
tracing-subscriber = { version = "0.3", features = ["env-filter"] }
futures-util = { version = "0.3", features = ["io"] }
rustyline-async = "*"

[dev-dependencies]
winnow = "0.6"
