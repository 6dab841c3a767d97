[package]
name = "imprint"
version = "0.1.0"
edition = "2021"
publish = false

[dependencies]
anyhow = "1"
bincode = "1"
blake3 = "1"
clap = { version = "4", features = ["derive"] }
colored = "2"
crossbeam = "0.8"
filetime = "0.2"
indicatif = "0.17"
jwalk = "0.8"
nix = { version = "0.29", features = ["ioctl", "fs"] }
rayon = "1"
redb = "2"
reflink = "0.1"
xattr = "1"
