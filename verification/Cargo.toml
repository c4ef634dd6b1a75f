[package]
name = "ufos_core"
version = "0.1.0"
edition = "2021"
publish = false

[dependencies]
anyhow = "1"
blake3 = { version = "=1.8.7", features = ["rayon"] }
crossbeam = "0.8"
libc = "0.2"
log = "0.4"
nix = "*"
num = "=0.4.3"
promissory = "=0.1.3"
rayon = "1"
stderrlog = "*"
thiserror = "1"
userfaultfd = "*"
xorshift = "=0.1.3"
