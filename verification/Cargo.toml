[package]
name = "mtg_gen"
version = "0.1.0"
edition = "2021"
publish = false

[dependencies]
anyhow = "=1.0.104"
chromiumoxide = "=0.9.1"
chromiumoxide_cdp = "=0.9.1"
facet = "=0.43.2"
facet-args = "=0.43.2"
facet-yaml = "=0.43.2"
futures = "=0.3.34"
maud = "=0.27.0"
tokio = { version = "=1.54.1", features = ["full"] }
walkdir = "=2.5.0"
