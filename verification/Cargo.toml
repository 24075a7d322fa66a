[package]
name = "asset_manifest"
version = "0.1.0"
edition = "2021"
publish = false

[dependencies]
anyhow = "1"
home = "*"
object = "0.32"
proc-macro2 = "1"
quote = "1"
railwind = "*"
syn = "2"
tracing = "0.1"

[dev-dependencies]
object = { version = "0.32", features = ["write"] }
