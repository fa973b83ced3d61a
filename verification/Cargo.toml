[package]
name = "cellbench"
version = "0.1.0"
edition = "2021"
publish = false

[dependencies]
ckb-hash = "*"
ckb-crypto = "*"
secp256k1 = "*"
tiny-keccak = { version = "*", features = ["keccak"] }
rand = "*"
rand_distr = "*"
rocksdb = "*"
serde = { version = "*", features = ["derive"] }
serde_yaml = "*"
serde_json = "*"
url = "*"
log = "*"
env_logger = "*"
anyhow = "*"
ckb-jsonrpc-types = "*"
ckb-types = "*"
