[package]
name = "hut"
version = "0.4.0"
edition = "2021"
publish = false

[dependencies]
semver = "1"
regex = "1"
sha2 = "0.10"
hex = "0.4"
toml = "0.8"
serde = { version = "1", features = ["derive"] }
serde_json = "1"
clap = { version = "4", features = ["derive"] }
clap_complete = "4"
colored = "2"
dirs = "5"
flate2 = "1"
glob = "0.3"
libloading = "0.8"
rayon = "1"
tar = "0.4"
tempfile = "3"
thiserror = "1"
walkdir = "2"
anyhow = "1"
reqwest = { version = "0.12", default-features = false }
