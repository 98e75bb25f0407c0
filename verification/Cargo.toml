[package]
name = "zlink"
version = "0.5.0"
edition = "2021"
publish = false

[dependencies]
futures-util = { version = "=0.3.34", default-features = false, features = ["std", "async-await"] }
libc = "=0.2.191"
pin-project-lite = "=0.2.17"
proc-macro2 = { version = "=1.0.107", default-features = false }
quote = { version = "=1.0.47", default-features = false }
rustix = { version = "=1.1.6", features = ["net", "process", "fs"] }
serde = { version = "=1.0.229", features = ["derive"] }
syn = { version = "=2.0.119", default-features = false, features = ["full", "parsing", "printing", "clone-impls"] }
tokio = { version = "=1.54.1", features = ["sync"] }
tokio-stream = { version = "=0.1.19", features = ["sync"] }
winnow = "=0.7.15"

[dev-dependencies]
serde_json = "=1.0.154"
