[package]
name = "stylus_profiler"
version = "0.1.0"
edition = "2021"
publish = false

[dependencies]
wasmparser = "*"
serde = { version = "1", features = ["derive"] }
serde_json = "1"
clap = { version = "4", features = ["derive"] }
colored = "*"
eyre = "*"
