[package]
name = "imprint"
version = "0.1.0"
edition = "2021"
publish = false

[dependencies]
anyhow = "1"
blake3 = { version = "1", features = ["pure"] }
clap = { version = "4", features = ["derive"] }
colored = "2"
indicatif = "0.17"
rayon = "1"
reflink = "0.1"
xxhash-rust = { version = "0.8", features = ["xxh3"] }
