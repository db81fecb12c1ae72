//! Raw DEFLATE compression and decompression through `libdeflater`.
use crate::context::{Context, Mode};
use vstd::prelude::*;

verus! {

/// Trusted: the type `libdeflater::Compressor`, held and passed on; nothing
/// is known of what is in it.
#[verifier::external_type_specification]
#[verifier::external_body]
pub struct ExCompressor(libdeflater::Compressor);

/// Trusted: the type `libdeflater::Decompressor`, held and passed on; nothing
/// is known of what is in it.
#[verifier::external_type_specification]
#[verifier::external_body]
pub struct ExDecompressor(libdeflater::Decompressor);

/// Trusted: the type `libdeflater::CompressionError`. Only its presence is
/// looked at.
#[verifier::external_type_specification]
#[verifier::external_body]
pub struct ExCompressionError(libdeflater::CompressionError);

/// Trusted: the type `libdeflater::DecompressionError`. Only its presence is
/// looked at.
#[verifier::external_type_specification]
#[verifier::external_body]
pub struct ExDecompressionError(libdeflater::DecompressionError);

/// Trusted: `libdeflater::Compressor::new`, at the default level. Nothing is
/// claimed of the compressor. The call gives up only where memory runs out.
#[verifier::external_body]
fn new_compressor() -> libdeflater::Compressor {
    libdeflater::Compressor::new(libdeflater::CompressionLvl::default())
}

/// Trusted: `libdeflater::Decompressor::new`. Nothing is claimed of the
/// decompressor. The call gives up only where memory runs out.
#[verifier::external_body]
fn new_decompressor() -> libdeflater::Decompressor {
    libdeflater::Decompressor::new()
}

/// The codec handle of a context: one of the two, by construction.
pub(crate) enum Codec {
    Compressor(libdeflater::Compressor),
    Decompressor(libdeflater::Decompressor),
}

impl Codec {
    /// The direction that the handle serves.
    pub(crate) open spec fn mode(self) -> Mode {
        match self {
            Codec::Compressor(_) => Mode::Encode,
            Codec::Decompressor(_) => Mode::Decode,
        }
    }

    /// Makes the handle for a direction.
    pub(crate) fn new(mode: Mode) -> (codec: Codec)
        ensures
            codec.mode() == mode,
    {
        match mode {
            Mode::Encode => Codec::Compressor(new_compressor()),
            Mode::Decode => Codec::Decompressor(new_decompressor()),
        }
    }

    /// The direction that the handle serves.
    pub(crate) fn direction(&self) -> (mode: Mode)
        ensures
            mode == self.mode(),
    {
        match self {
            Codec::Compressor(_) => Mode::Encode,
            Codec::Decompressor(_) => Mode::Decode,
        }
    }
}

/// What a raw DEFLATE stream decodes to, or `None` where it is not a valid
/// stream. Bytes after the end of the stream do not count.
pub uninterp spec fn inflated(stream: Seq<u8>) -> Option<Seq<u8>>;

/// The size that is always enough to hold the compressed form of `len` bytes
/// or fewer.
pub uninterp spec fn deflate_bound(len: nat) -> nat;

/// Trusted: `libdeflater::Compressor::deflate_compress_bound`. The contract
/// gives the bound its name; the lengths admitted are those a buffer can have.
#[verifier::external_body]
fn deflate_compress_bound(compressor: &mut libdeflater::Compressor, len: usize) -> (bound: usize)
    requires
        len <= isize::MAX,
    ensures
        bound == deflate_bound(len as nat),
{
    compressor.deflate_compress_bound(len)
}

/// Trusted: `libdeflater::Compressor::deflate_compress`. The buffer keeps its
/// length. On success the first `n` bytes written, with `n` not zero, are a
/// stream that decodes to `data`, as libdeflate documents. Success is owed
/// where the buffer is at least as long as the bound for some length that
/// `data` does not exceed.
#[verifier::external_body]
fn deflate_compress(
    compressor: &mut libdeflater::Compressor,
    data: &[u8],
    out: &mut Vec<u8>,
) -> (written: Result<usize, libdeflater::CompressionError>)
    ensures
        final(out)@.len() == old(out)@.len(),
        written matches Ok(n) ==> 0 < n <= old(out)@.len() && inflated(
            final(out)@.take(n as int),
        ) == Some(data@),
        forall|len: nat|
            data@.len() <= len <= isize::MAX && #[trigger] deflate_bound(len) <= old(out)@.len()
                ==> written is Ok,
{
    compressor.deflate_compress(data, out.as_mut_slice())
}

/// Trusted: `libdeflater::Decompressor::deflate_decompress`. The buffer keeps
/// its length. The call succeeds exactly where `data` is a valid stream whose
/// decoded form fits the buffer, and then the first `n` bytes written are that
/// decoded form.
#[verifier::external_body]
fn deflate_decompress(
    decompressor: &mut libdeflater::Decompressor,
    data: &[u8],
    out: &mut Vec<u8>,
) -> (written: Result<usize, libdeflater::DecompressionError>)
    ensures
        final(out)@.len() == old(out)@.len(),
        written matches Ok(n) ==> n <= old(out)@.len() && inflated(data@) == Some(
            final(out)@.take(n as int),
        ),
        written is Err ==> !(inflated(data@) matches Some(plain) && plain.len() <= old(
            out,
        )@.len()),
{
    decompressor.deflate_decompress(data, out.as_mut_slice())
}

/// What decompression into a buffer of `capacity` bytes gives: the decoded
/// form of `stream` where it is valid and fits, and nothing otherwise.
pub open spec fn inflated_within(stream: Seq<u8>, capacity: nat) -> Seq<u8> {
    match inflated(stream) {
        Some(plain) => if plain.len() <= capacity {
            plain
        } else {
            Seq::empty()
        },
        None => Seq::empty(),
    }
}

impl Context {
    /// Compresses `data` into a buffer sized for `size` bytes of input.
    ///
    /// The result is either empty, which signals failure, or a stream that
    /// decodes to `data`. An encoding context never fails where `size` is at
    /// least the length of `data`. The context is left as it was.
    pub fn compress(&mut self, data: &[u8], size: i32) -> (out: Vec<u8>)
        ensures
            final(self)@ == old(self)@,
            final(self)@.well_formed(),
            out@.len() == 0 || inflated(out@) == Some(data@),
            size >= 0 ==> out@.len() <= deflate_bound(size as nat),
            old(self)@.mode == Mode::Encode && data@.len() <= size ==> out@.len() > 0,
            old(self)@.mode == Mode::Decode || size < 0 ==> out@.len() == 0,
    {
        proof {
            if let Some(state) = &self.cipher_state {
                use_type_invariant(state);
                state.lemma_lengths();
            }
        }
        if size < 0 {
            return Vec::new();
        }
        let len = size as usize;
        match &mut self.codec {
            Codec::Decompressor(_) => Vec::new(),
            Codec::Compressor(compressor) => {
                let bound = deflate_compress_bound(compressor, len);
                let mut out = vec![0u8; bound];
                match deflate_compress(compressor, data, &mut out) {
                    Ok(n) => {
                        out.truncate(n);
                        out
                    },
                    Err(_) => Vec::new(),
                }
            },
        }
    }

    /// Decompresses `data` into a buffer of `prealloc_size` bytes.
    ///
    /// The result is the decoded form of `data` where `data` is a valid stream
    /// and its decoded form fits the buffer. Otherwise it is empty: a buffer
    /// that is too small gives nothing, not a part. The context is left as it
    /// was.
    pub fn decompress(&mut self, data: &[u8], prealloc_size: usize) -> (out: Vec<u8>)
        ensures
            final(self)@ == old(self)@,
            final(self)@.well_formed(),
            old(self)@.mode == Mode::Decode ==> out@ == inflated_within(
                data@,
                prealloc_size as nat,
            ),
            old(self)@.mode == Mode::Encode ==> out@.len() == 0,
    {
        proof {
            if let Some(state) = &self.cipher_state {
                use_type_invariant(state);
                state.lemma_lengths();
            }
        }
        match &mut self.codec {
            Codec::Compressor(_) => Vec::new(),
            Codec::Decompressor(decompressor) => {
                let mut out = vec![0u8; prealloc_size];
                match deflate_decompress(decompressor, data, &mut out) {
                    Ok(n) => {
                        out.truncate(n);
                        out
                    },
                    Err(_) => Vec::new(),
                }
            },
        }
    }
}

} // verus!
