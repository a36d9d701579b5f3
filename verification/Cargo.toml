[package]
name = "corrosive"
version = "0.1.0"
edition = "2021"
publish = false

[dependencies]
serde = { version = "1", features = ["derive"] }
serde_json = "1"
syn = { version = "2", features = ["full", "visit-mut", "extra-traits"] }
quote = "1"
proc-macro2 = "1"
walkdir = "2"
bus = "2"
fs_extra = "1"
crossbeam-channel = "0.5"
