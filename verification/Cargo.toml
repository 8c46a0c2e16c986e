[package]
name = "helix-term"
version = "0.1.0"
edition = "2021"
publish = false

[dependencies]
anyhow = "1"
blake3 = "=1.8.7"
chrono = "=0.4.45"
fff-search = "=0.11.0"
heed = "=0.22.1"
ignore = "=0.4.34"
log = "0.4"
open = "=5.4.5"
serde = { version = "1", features = ["derive"] }
serde_json = "=1.0.154"
termina = "=0.4.0"
termini = "=1.0.0"
toml = "=1.1.8"
url = "2"
unicode-segmentation = "=1.13.3"
unicode-width = "=0.2.3"
