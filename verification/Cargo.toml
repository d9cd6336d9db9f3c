[package]
name = "yaml_rs"
version = "0.1.0"
edition = "2021"
publish = false

[dependencies]
atoi = "2"
encoding_rs = "0.8"
itoa = "1"
lexical-core = "1"
memchr = "2"
num-bigint = "0.4"
pyo3 = { version = "*", features = ["num-bigint"] }
rustc-hash = "2"
saphyr = "*"
saphyr-parser = "*"
