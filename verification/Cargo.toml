[package]
name = "algeff-core"
version = "0.1.0"
edition = "2021"
publish = false

[dependencies]
tokio = { version = "=1.54.1", features = ["rt-multi-thread", "sync", "time", "net", "fs", "process", "io-util"] }
syn = { version = "=2.0.119", default-features = false, features = ["full", "parsing", "printing"] }
quote = { version = "=1.0.47", default-features = false }
proc-macro2 = { version = "=1.0.107", default-features = false }
