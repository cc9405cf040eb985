[package]
name = "noisy-clippy"
version = "0.1.0"
edition = "2021"
publish = false

[dependencies]
anyhow = "1"
clap = { version = "4", features = ["derive"] }
flate2 = "1"
git2 = { version = "0.19", default-features = false }
parking_lot = "0.12"
proc-macro2 = { version = "1", features = ["span-locations"] }
rayon = "1"
reqwest = { version = "0.12", default-features = false, features = ["blocking", "json", "rustls-tls"] }
semver = "1"
serde = { version = "1", features = ["derive"] }
syn = { version = "2", features = ["full", "visit"] }
tar = "0.4"
walkdir = "2"
