[package]
name = "rockbuild"
version = "0.1.0"
edition = "2021"
publish = false

[dependencies]
glob = "0.3"
num_cpus = "1"
serde_json = "1"
