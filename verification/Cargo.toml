[package]
name = "goldsrc"
version = "0.1.0"
edition = "2021"
publish = false

[dependencies]
toml = "=0.8.23"
serde = { version = "=1.0.229", features = ["derive"] }
log = "=0.4.35"
lexopt = "=0.3.2"
crossbeam-channel = "=0.5.17"
wasmi = "=0.31.2"
notify = "=6.1.1"
syn = { version = "=2.0.119", features = ["full", "parsing"] }
quote = "=1.0.47"
