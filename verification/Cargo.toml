[package]
name = "pyfreeze"
version = "0.1.0"
edition = "2021"
publish = false

[dependencies]
bincode = "1.3"
chrono = "0.4"
clap = { version = "4", features = ["derive"] }
hex = "0.4"
libc = "0.2"
memmap2 = "0.9"
nix = "0.26"
pyo3 = "0.19"
serde = { version = "1", features = ["derive"] }
serde_json = "1"
sha2 = "0.10"
thiserror = "1"
tracing = "0.1"
tracing-subscriber = { version = "0.3", features = ["env-filter"] }

[dev-dependencies]
tempfile = "3"
