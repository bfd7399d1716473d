[package]
name = "spindle"
version = "0.1.0"
edition = "2021"
publish = false

[dependencies]
caseless = "*"
getrandom = "*"
lofty = "*"
rusqlite = "*"
rustix = { version = "1", features = ["fs"] }
serde = { version = "1", features = ["derive"] }
serde_json = "1"
sha2 = "*"
thiserror = "*"
tokio = { version = "1", features = ["rt", "rt-multi-thread", "process", "time", "io-util", "macros", "sync"] }
tokio-util = "*"
tracing = "*"
unicode-normalization = "*"
url = "2"
