[package]
name = "machunt"
version = "0.1.0"
edition = "2021"
publish = false

[dependencies]
regex = "1"
serde = { version = "1", features = ["derive"] }
serde_json = "1"
rusqlite = { version = "*", features = ["bundled"] }
walkdir = "2"
crossbeam = "0.8"
parking_lot = "0.12"
clap = { version = "4", features = ["derive"] }
ctrlc = "3"
core-foundation-sys = "0.8"
