[package]
name = "polkadot-transaction-pool"
version = "0.1.0"
edition = "2021"
publish = false

[dependencies]
blake2-rfc = "0.2"
log = "0.4"
parking_lot = "0.12"
transaction-pool = "1"
