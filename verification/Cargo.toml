[package]
name = "mon2y"
version = "0.1.0"
edition = "2021"
publish = false

[dependencies]
rand = "=0.9.5"
linked_hash_set = "=0.1.6"
serde = { version = "=1.0.229", features = ["derive"] }
serde_json = "=1.0.154"
clap = { version = "=4.6.7", features = ["derive"] }
clap-verbosity-flag = "=3.0.4"
log = "=0.4.35"
env_logger = "=0.11.11"
bitflags = "=2.13.2"
lazy_static = "=1.5.1"
chrono = "=0.4.45"
crossterm = "=0.29.0"
pyo3 = "=0.23.5"
