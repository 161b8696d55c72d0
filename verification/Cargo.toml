[package]
name = "felix_backend"
version = "0.1.0"
edition = "2021"
publish = false

[dependencies]
serde = { version = "1", features = ["derive"] }
gettext-rs = { version = "0.7", features = ["gettext-system"] }
rayon = "1"
num_cpus = "1"
