[package]
name = "evm_actor"
version = "0.1.0"
edition = "2021"
publish = false

[dependencies]
cid = "=0.11.3"
fvm_ipld_blockstore = "=0.3.2"
fvm_ipld_hamt = "=0.10.6"
multihash-codetable = { version = "=0.2.2", default-features = false }
