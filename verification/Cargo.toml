[package]
name = "semwave"
version = "0.1.0"
edition = "2021"
publish = false

[dependencies]
anstream = "0.6"
anstyle = "1"
anyhow = "1"
cargo_metadata = "*"
clap = { version = "4", features = ["derive"] }
rayon = "1"
rustdoc-json = "*"
rustdoc-types = "*"
semver = "1"
serde_json = "1"
toml = "0.8"
