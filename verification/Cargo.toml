[package]
name = "simd_cesu8"
version = "0.1.0"
edition = "2021"
publish = false

[dependencies]
simdutf8 = "0.1"
cesu8 = "1"
rand = "0.8"
rand_xoshiro = "0.6"
criterion = { version = "0.5", default-features = false }
