[package]
name = "kona_client"
version = "0.1.0"
edition = "2021"
publish = false

[dependencies]
alloy-consensus = "=0.12.6"
alloy-eips = "=0.12.6"
alloy-primitives = "=0.8.26"
alloy-rlp = "=0.3.16"
alloy-sol-types = "=0.8.26"
anyhow = "=1.0.104"
hashbrown = "=0.17.1"
serde_json = "=1.0.154"
sha2 = "=0.11.1"
sp1-zkvm = "=6.10.0"

[dev-dependencies]
alloy-trie = "=0.7.9"
