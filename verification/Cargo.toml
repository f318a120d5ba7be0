[package]
name = "stable_map_bench"
version = "0.1.0"
edition = "2021"
publish = false

[dependencies]
ic-stable-structures = "=0.7.2"
tiny-rng = "=0.3.0"
candid = "=0.10.37"
canbench-rs = "=0.7.0"
ic-cdk = "=0.20.3"
