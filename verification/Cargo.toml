[package]
name = "urva"
version = "0.1.0"
edition = "2021"
publish = false

[dependencies]
mongodb = "3"
serde = { version = "1", features = ["derive"] }
serde_json = "1"
futures-util = "0.3"
tokio = { version = "1", features = ["time", "rt"] }
syn = { version = "2", features = ["full", "extra-traits"] }
quote = "1"
proc-macro2 = "1"
serde_derive_internals = "0.29"
thiserror = "2"
