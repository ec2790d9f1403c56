[package]
name = "oxide"
version = "0.1.0"
edition = "2021"
publish = false

[dependencies]
anyhow = "1"
lofty = "=0.22.4"
nix = { version = "=0.29.0", features = ["fs"] }
rayon = "=1.12.0"
symphonia = { version = "=0.5.5", features = ["all"] }
walkdir = "=2.5.0"
chromaprint-next = "=0.1.0"
