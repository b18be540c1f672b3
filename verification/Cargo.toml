[package]
name = "rocker_merge"
version = "0.1.0"
edition = "2021"
publish = false

[dependencies]
eetf = "=0.4.0"
libflate = "=0.1.27"
num-bigint = "=0.2.6"
num-traits = "=0.2.19"
rocksdb = { version = "=0.25.0", default-features = false }
