[package]
name = "proof-essentials"
version = "0.1.0"
edition = "2021"
publish = false

[dependencies]
ark-bn254 = "0.3.0"
ark-ec = "0.3.0"
ark-ff = "0.3.0"
ark-marlin = { version = "0.3.0", default-features = false, features = ["std"] }
ark-serialize = { version = "0.3.0", features = ["derive"] }
ark-std = "0.3.0"
blake2 = "0.9"
digest = "0.9"
rand = "0.8.4"
thiserror = "1.0.30"
tiny-keccak = { version = "2.0.2", features = ["shake"] }
