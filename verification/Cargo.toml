[package]
name = "blockchain_demo"
version = "0.1.0"
edition = "2021"
publish = false

[dependencies]
rust-crypto = "0.2"
chrono = "0.4"
leveldb = "0.8"
db-key = "0.1"
rustyline = "9"
