[package]
name = "cargo-geiger"
version = "0.1.0"
edition = "2021"
publish = false

[dependencies]
regex = "1"
petgraph = "0.6"
semver = "1"
url = "2"
syn = { version = "2", features = ["full", "visit"] }
walkdir = "2"
colored = "2"
console = "0.15"
serde = { version = "1", features = ["derive"] }
serde_json = "1"
cargo_metadata = "0.18"
cargo-platform = "0.1"
pico-args = "0.5"
anyhow = "1"
strum = "0.26"
strum_macros = "0.26"
