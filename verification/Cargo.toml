[package]
name = "accumulator"
version = "0.1.0"
edition = "2021"
publish = false

[dependencies]
tree_hash = "0.5"
tree_hash_derive = "0.5"
ethereum_ssz = "0.5"
ethereum_ssz_derive = "0.5"
ssz_types = "0.5"
ethereum-types = "0.14"
typenum = "1"
impl-serde = "0.4"
serde = { version = "1", features = ["derive"] }
serde_derive = "1"
serde_json = "1"
ctrlc = "3"
mysql = { version = "*", default-features = false, features = ["minimal"] }
