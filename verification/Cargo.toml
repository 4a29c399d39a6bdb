[package]
name = "cargo-mkdist"
version = "0.1.0"
edition = "2021"
publish = false

[dependencies]
anyhow = "1"
ar = "0.9"
cargo_metadata = "*"
clap = { version = "4", features = ["derive"] }
flate2 = "1"
petgraph = "*"
serde = { version = "1", features = ["derive"] }
tar = "0.4"
tempfile = "3"
toml = "*"
walkdir = "2"
zstd = "*"
