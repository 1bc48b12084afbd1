[package]
name = "vmm-sandboxer"
version = "0.1.0"
edition = "2021"
publish = false

[dependencies]
anyhow = "=1.0.104"
clap = { version = "=4.6.7", features = ["derive"] }
hyper = { version = "=0.14.32", features = ["client", "server", "http1", "tcp", "runtime"] }
log = "=0.4.35"
nix = { version = "=0.29.0", features = ["signal", "process"] }
procfs = "=0.16.0"
prometheus = "=0.13.4"
rand = "0.8"
sd-notify = "=0.4.5"
serde = { version = "=1.0.229", features = ["derive"] }
serde_json = "=1.0.154"
sha2 = "=0.10.9"
time = "=0.3.55"
tokio = { version = "=1.54.1", features = ["full"] }
toml = "=0.8.23"
uuid = { version = "=1.29.0", features = ["v4"] }
