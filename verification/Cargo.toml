[package]
name = "unison"
version = "0.1.0"
edition = "2021"
publish = false

[dependencies]
anyhow = "*"
bytes = "*"
convert_case = "*"
futures-util = "*"
proc-macro2 = "*"
quinn = "*"
quote = "*"
rcgen = "*"
rustls = "*"
rustls-pemfile = "*"
serde_json = "*"
tokio = { version = "*", features = ["rt-multi-thread", "sync", "time", "macros", "net"] }
tracing = "*"
uuid = { version = "*", features = ["v4"] }
