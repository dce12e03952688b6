[package]
name = "token_fuzzer"
version = "0.1.0"
edition = "2021"
publish = false

[dependencies]
num-bigint = "=0.4.8"
stellar-strkey = "=0.0.8"
itertools = "=0.15.0"
arbitrary = { version = "=1.3.2", features = ["derive"] }
libfuzzer-sys = "=0.4.13"
soroban-sdk = { version = "29", features = ["testutils"] }
soroban-ledger-snapshot = "29"
