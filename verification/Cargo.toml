[package]
name = "graphql_core"
version = "0.1.0"
edition = "2021"
publish = false

[dependencies]
indexmap = "*"
syn = { version = "*", features = ["full"] }
proc-macro-crate = "*"
proc-macro2 = "*"
quote = "*"
serde_json = "*"
futures = "*"
blocking = "*"
spin = "*"
