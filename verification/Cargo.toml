[package]
name = "cntryl_tools"
version = "0.1.0"
edition = "2021"
publish = false

[dependencies]
anyhow = "1"
chrono = "0.4"
clap = { version = "4", features = ["derive"] }
csv = "1"
proc-macro2 = { version = "1", features = ["span-locations"] }
quote = "1"
regex = "1"
serde = { version = "1", features = ["derive"] }
serde_json = "1"
sha2 = "0.10"
syn = { version = "2", features = ["full", "visit", "extra-traits"] }
toml = "0.8"
walkdir = "2"

[dev-dependencies]
tempfile = "3"
