[package]
name = "gentle"
version = "0.1.0"
edition = "2021"
publish = false

[dependencies]
anyhow = "1"
blake3 = { version = "1", features = ["pure"] }
glob = "0.3"
humantime = "2"
ignore = "0.4"
indicatif = "0.17"
is-terminal = "0.4"
linkme = "0.3"
serde = { version = "1", features = ["derive"] }
structopt = "0.3"
toml = "0.5"
walkdir = "2"
