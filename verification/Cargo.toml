[package]
name = "sealring"
version = "0.1.0"
edition = "2021"
publish = false

[dependencies]
hkdf = "*"
sha2 = "*"
chacha20poly1305 = "*"
subtle = "*"
zeroize = "*"
rand_core = "*"
ark-ec = "*"
ark-ff = "*"
ark-grumpkin = "*"
ark-serialize = "*"
serde = "*"
wincode = "*"
rayon = "*"

[dev-dependencies]
rand_chacha = "*"
hex = "*"
