[package]
name = "crate_derivations"
version = "0.1.0"
edition = "2021"
publish = false

[dependencies]
pathdiff = "*"
cargo_metadata = "*"
semver = "*"
serde = { version = "*", features = ["derive"] }
serde_json = "*"
