[package]
name = "kvdb_file"
version = "0.1.0"
edition = "2021"
publish = false

[dependencies]
hex = "0.4"
kvdb = "*"
kvdb-memorydb = "*"

[dev-dependencies]
kvdb-shared-tests = "*"
