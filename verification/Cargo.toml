[package]
name = "earendil"
version = "0.1.0"
edition = "2021"
publish = false

[dependencies]
anyhow = "=1.0.104"
async-trait = "=0.1.92"
bincode = "=1.3.3"
bytes = { version = "=1.12.1", features = ["serde"] }
dashmap = "=6.2.1"
earendil_crypt = "=0.5.8"
earendil_packet = "=0.5.9"
earendil_topology = "=0.5.8"
futures-util = "=0.3.34"
log = "=0.4.34"
nanorpc = "=0.1.13"
parking_lot = "=0.12.5"
serde = { version = "=1.0.229", features = ["derive"] }
serde_json = "=1.0.154"
smol = "=2.0.2"
smol-timeout = "=0.6.1"
smolscale = "=0.4.16"
stdcode = "=0.1.14"
