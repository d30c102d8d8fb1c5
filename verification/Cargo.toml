[package]
name = "svm"
version = "0.1.0"
edition = "2021"
publish = false

[dependencies]
byteorder = "=1.5.0"
log = "=0.4.34"
rocksdb = "=0.25.0"
serde = { version = "=1.0.229", features = ["derive"] }
tiny-keccak = "=1.5.0"
wasmer-runtime-core = "=0.17.1"
