[package]
name = "accounts-engine"
version = "0.1.0"
edition = "2021"
publish = false

[dependencies]
nimiq-database = "*"
nimiq-hash = "*"
nimiq-keys = "*"
nimiq-primitives = "*"
nimiq-transaction = "*"
nimiq-trie = "*"
