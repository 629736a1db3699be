[package]
name = "armada_lib"
version = "0.1.0"
edition = "2021"
publish = false

[dependencies]
anyhow = "1"
async-trait = "0.1"
atty = "0.2"
cidr-utils = "0.5"
clap = "2"
csv = "1"
futures = "0.3"
indicatif = "0.17"
itertools = "0.10"
lazy_static = "1"
libc = "0.2"
num-traits = "0.2"
pnet = "0.33"
pnet_packet = "0.33"
pnet_sys = "0.33"
rand = "0.8"
regex = "1"
tokio = { version = "1", features = ["rt-multi-thread", "macros", "sync", "process"] }
tokio-stream = "0.1"
toml = "0.5"
tracing = "0.1"
twox-hash = "1"
