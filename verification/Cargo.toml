[package]
name = "ange_gardien"
version = "0.1.0"
edition = "2021"
publish = false

[dependencies]
anyhow = "*"
base64 = "*"
chrono = "*"
clap = { version = "*", features = ["derive"] }
directories = "*"
env_logger = "*"
libc = "*"
log = "*"
num_cpus = "*"
pnet = "*"
ring = "*"
serde = { version = "*", features = ["derive"] }
serde_json = "*"
sysinfo = "*"
threadpool = "*"
tokio = { version = "*", features = ["full"] }
trust-dns-resolver = "*"
