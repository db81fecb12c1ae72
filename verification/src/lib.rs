//! A per-connection pipeline that compresses and seals outbound data, and
//! opens and decompresses inbound data.
//!
//! A [`context::Context`] is made for one direction, given a key and an
//! initialization vector, and then fed one buffer per call through
//! [`pipeline::process`]. Encoding compresses with raw DEFLATE, appends a
//! checksum over the call's counter, the compressed bytes and the key, and
//! encrypts the whole with AES-256 in eight-bit cipher-feedback mode. Decoding
//! runs the same steps backwards and returns an empty buffer where any of them
//! fails.
//!
//! The contracts are stated over [`context::ContextView`], the plain data of a
//! context. The laws that relate encoding and decoding are proof functions in
//! [`pipeline`], [`cipher`] and [`cfb8`].
pub mod bridge;
pub mod cfb8;
pub mod cipher;
pub mod codec;
pub mod context;
pub mod digest;
pub mod pipeline;
