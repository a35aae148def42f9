[package]
name = "shardingite"
version = "0.1.0"
edition = "2021"
publish = false

[dependencies]
sqlparser = "*"
rusqlite = { version = "*", features = ["bundled"] }
