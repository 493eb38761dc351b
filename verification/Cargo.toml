[package]
name = "asm_common"
version = "0.1.0"
edition = "2021"
publish = false

[dependencies]
bitvec = "1"
sha3 = "0.10"
