[package]
name = "gossip_consensus"
version = "0.1.0"
edition = "2021"
publish = false

[dependencies]
actix = { version = "=0.10.0", default-features = false }
actix-rt = "=1.1.1"
criterion-stats = "=0.3.0"
futures = "=0.3.34"
rand = "=0.7.3"
rayon = "=1.12.0"
termion = "=1.5.6"
tui = "=0.8.0"
