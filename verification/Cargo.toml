[package]
name = "jwt-crackng"
version = "0.1.0"
edition = "2021"
publish = false

[dependencies]
anyhow = "1"
base64 = "0.22"
clap = { version = "4", features = ["derive"] }
indicatif = "0.17"
num_cpus = "1"
rayon = "1"
ring = "0.17"
serde_json = "1"
thiserror = "1"
users = "0.11"
