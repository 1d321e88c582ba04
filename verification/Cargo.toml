[package]
name = "libzcash"
version = "0.1.0"
edition = "2021"
publish = false

[dependencies]
blake2b_simd = "=1.0.5"
hex = "=0.4.3"
libc = "=0.2.191"
rand = "=0.7.3"
secp256k1 = "=0.20.3"
zcash_primitives = { version = "=0.5.0", features = ["transparent-inputs"] }
zcash_client_backend = "=0.5.0"
zcash_proofs = "=0.5.0"
