[package]
name = "ipv6_prefix_filter"
version = "0.1.0"
edition = "2021"
publish = false

[dependencies]
pnet = "*"
ipnet = "*"
nftables = "*"
nfq = "*"
ctrlc = "*"
env_logger = "*"
log = "*"
clap = { version = "*", features = ["derive"] }
thiserror = "*"
daemonize = "*"
