[package]
name = "media_sorter"
version = "0.1.0"
edition = "2021"
publish = false

[dependencies]
anyhow = "1"
chrono = { version = "0.4", default-features = false, features = ["alloc", "std"] }
clap = { version = "4", features = ["derive"] }
indicatif = { version = "0.17", features = ["rayon"] }
rayon = "1"
walkdir = "2"
xxhash-rust = { version = "0.8", features = ["xxh3"] }
