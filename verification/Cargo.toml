[package]
name = "nu_sidecar"
version = "0.1.0"
edition = "2021"
publish = false

[dependencies]
dirs = "=5.0.1"
nu-plugin = "=0.115.1"
nu-protocol = "=0.115.1"
serde = { version = "=1.0.229", features = ["derive"] }
serde_json = "=1.0.154"
time = { version = "=0.3.55", features = ["formatting"] }
toml = "=0.8.23"
ureq = { version = "=2.12.1", features = ["json"] }
