[package]
name = "asset_resolver"
version = "0.1.0"
edition = "2021"
publish = false

[dependencies]
binrw = "0.15.2"
rusqlite = { version = "0.37.0", features = ["bundled"] }
tokio = { version = "1.48.0", features = ["rt", "rt-multi-thread"] }
