[package]
name = "native_crypto"
version = "0.1.0"
edition = "2021"
publish = false

[dependencies]
aes = "=0.8.4"
jni = "=0.19.0"
libdeflater = "=1.26.1"
sha2 = "=0.10.9"

[dev-dependencies]
cfb8 = "=0.8.1"
