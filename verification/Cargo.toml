[package]
name = "opti-set-int"
version = "0.1.0"
edition = "2021"
publish = false

[dependencies]
bit-set = "=0.11.1"
bitvec = "=1.1.1"
fixedbitset = "=0.5.7"
roaring = "=0.12.0"
croaring = "=2.8.0"
rustc-hash = "=2.1.3"
avl = "=0.8.0"
rbtree = "=0.2.0"
range-set-blaze = "=0.8.0"
idlset = "=0.2.5"
rust_intervals = "=1.0.2"
gcollections = "=1.6.0"
intervallum = "=1.4.4"
interval_set = "*"
rand = { version = "=0.8.8", features = ["small_rng"] }
clap = { version = "=4.6.7", features = ["derive"] }
serde = { version = "=1.0.229", features = ["derive"] }
toml = "=1.2.1"
anyhow = "=1.0.104"
