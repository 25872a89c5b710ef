[package]
name = "wesnoth_zk"
version = "0.1.0"
edition = "2021"
publish = false

[dependencies]
num-bigint = { version = "=0.4.8", features = ["rand"] }
rand = "=0.8.8"
serde = { version = "=1.0.229", features = ["derive"] }
serde_json = "=1.0.154"
tempfile = "=3.27.0"
bincode = "=1.3.3"
nova-scotia = "=0.5.0"
nova-snark = "=0.23.0"
halo2curves = "=0.1.0"
