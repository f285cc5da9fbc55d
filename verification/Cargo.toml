[package]
name = "lb_core"
version = "0.1.0"
edition = "2021"
publish = false

[dependencies]
pingora = { version = "*", default-features = false }
pingora-proxy = { version = "*", default-features = false }
async-trait = "*"
tokio = { version = "*", features = ["net", "time"] }
tracing = "*"
