//! The pipeline: compress then seal when encoding, open then decompress when
//! decoding.
use crate::cfb8::{cfb8_decrypted, lemma_decrypt_injective, lemma_decrypted_prefix};
use crate::cipher::{lemma_open_inverts_seal, lemma_sealed_len, opened, sealed};
use crate::codec::{inflated, inflated_within};
use crate::context::{Context, ContextView, Mode};
use vstd::prelude::*;

verus! {

impl ContextView {
    /// What decoding `data` returns: the decompressed payload of the frame,
    /// and nothing where the frame does not open, its payload is empty or not
    /// a valid stream, or the decompressed payload is larger than the buffer
    /// set aside for it.
    pub open spec fn decoded(self, data: Seq<u8>) -> Seq<u8> {
        let payload = self.cipher_output(data);
        if payload.len() == 0 {
            Seq::empty()
        } else {
            inflated_within(payload, self.prealloc_size as nat)
        }
    }

    /// `out` and `after` are what encoding `data` by way of the compressed
    /// form `stream` gives: `stream` decodes to `data`, `out` is its cipher
    /// output and `after` the view that the cipher step leaves.
    pub open spec fn encodes_through(
        self,
        data: Seq<u8>,
        stream: Seq<u8>,
        out: Seq<u8>,
        after: ContextView,
    ) -> bool {
        &&& stream.len() > 0
        &&& inflated(stream) == Some(data)
        &&& out == self.cipher_output(stream)
        &&& after == self.after_cipher(stream)
    }

    /// `out` and `after` are what encoding `data` may give. Which compressed
    /// form the codec chooses is left open; that it decodes to `data` is not.
    pub open spec fn encodes(self, data: Seq<u8>, out: Seq<u8>, after: ContextView) -> bool {
        exists|stream: Seq<u8>| #[trigger] self.encodes_through(data, stream, out, after)
    }
}

/// Runs the pipeline of `context` on `data`.
///
/// Encoding compresses `data` into a buffer sized for `size` bytes of input
/// and seals the result. The output is empty, and the context unchanged, where
/// the codec fails or the cipher cannot run; neither happens on a ready
/// context where `size` is at least the length of `data`.
///
/// Decoding opens the frame `data` and decompresses its payload into a buffer
/// of the context's preallocation size. The output is empty where any step
/// fails; `size` plays no part.
pub fn process(context: &mut Context, data: &[u8], size: i32) -> (out: Vec<u8>)
    ensures
        final(context)@.well_formed(),
        old(context)@.mode == Mode::Encode ==> {
            ||| out@.len() == 0 && final(context)@ == old(context)@
            ||| old(context)@.encodes(data@, out@, final(context)@)
        },
        old(context)@.mode == Mode::Encode && old(context)@.ready() && data@.len() <= size
            ==> out@.len() > 0,
        old(context)@.mode == Mode::Encode && !old(context)@.ready() ==> out@.len() == 0,
        old(context)@.mode == Mode::Decode ==> out@ == old(context)@.decoded(data@),
        old(context)@.mode == Mode::Decode ==> final(context)@ == old(context)@.after_cipher(
            data@,
        ),
{
    match context.mode() {
        Mode::Encode => {
            let compressed = context.compress(data, size);
            if compressed.len() == 0 {
                return compressed;
            }
            let out = context.process(compressed.as_slice());
            proof {
                let before = old(context)@;
                assert(before.encodes_through(data@, compressed@, out@, context@));
                if before.ready() {
                    lemma_sealed_len(
                        before.key.unwrap(),
                        before.register.unwrap(),
                        before.counter,
                        compressed@,
                    );
                }
            }
            out
        },
        Mode::Decode => {
            let payload = context.process(data);
            if payload.len() == 0 {
                return payload;
            }
            let capacity = context.prealloc_size();
            context.decompress(payload.as_slice(), capacity)
        },
    }
}

/// Decoding undoes encoding. Take an encoder and a decoder with the same key,
/// register and counter, and let `out` be what the encoder gave for `data`.
/// If the decoder's preallocation size is at least the length of `data`, the
/// decoder gives `data` for `out`, and afterwards the two again agree on key,
/// register and counter, so that the next pair of calls is in the same
/// position.
pub proof fn lemma_decode_inverts_encode(
    encoder: ContextView,
    decoder: ContextView,
    data: Seq<u8>,
    out: Seq<u8>,
    encoder_after: ContextView,
)
    requires
        encoder.well_formed(),
        decoder.well_formed(),
        encoder.mode == Mode::Encode,
        decoder.mode == Mode::Decode,
        encoder.ready(),
        encoder.key == decoder.key,
        encoder.register == decoder.register,
        encoder.counter == decoder.counter,
        encoder.encodes(data, out, encoder_after),
        data.len() <= decoder.prealloc_size,
    ensures
        decoder.decoded(out) == data,
        decoder.after_cipher(out).key == encoder_after.key,
        decoder.after_cipher(out).register == encoder_after.register,
        decoder.after_cipher(out).counter == encoder_after.counter,
{
    let stream = choose|stream: Seq<u8>|
        #[trigger] encoder.encodes_through(data, stream, out, encoder_after);
    let key = encoder.key.unwrap();
    let register = encoder.register.unwrap();
    lemma_open_inverts_seal(key, register, encoder.counter, stream);
}

/// A frame whose checksum bytes were altered does not decode. Let `tampered`
/// have the length of the sealed frame of `payload` and agree with it before
/// the last eight bytes, but not on all of them: decoding `tampered` gives
/// nothing.
pub proof fn lemma_altered_checksum_decodes_to_nothing(
    decoder: ContextView,
    payload: Seq<u8>,
    tampered: Seq<u8>,
)
    requires
        decoder.well_formed(),
        decoder.mode == Mode::Decode,
        decoder.initialized(),
        ({
            let good = sealed(
                decoder.key.unwrap(),
                decoder.register.unwrap(),
                decoder.counter,
                payload,
            );
            &&& tampered.len() == good.len()
            &&& tampered != good
            &&& tampered.take(payload.len() as int) == good.take(payload.len() as int)
        }),
    ensures
        decoder.cipher_output(tampered).len() == 0,
        decoder.decoded(tampered).len() == 0,
{
    let key = decoder.key.unwrap();
    let register = decoder.register.unwrap();
    let counter = decoder.counter;
    let good = sealed(key, register, counter, payload);
    let split = payload.len() as int;
    lemma_sealed_len(key, register, counter, payload);
    lemma_open_inverts_seal(key, register, counter, payload);
    let plain = cfb8_decrypted(key, register, good);
    let other = cfb8_decrypted(key, register, tampered);
    if opened(key, register, counter, tampered) is Some {
        lemma_decrypted_prefix(key, register, good, split);
        lemma_decrypted_prefix(key, register, tampered, split);
        assert(other.take(split) == plain.take(split));
        assert(other.skip(split) == plain.skip(split));
        assert(other =~= other.take(split) + other.skip(split));
        assert(plain =~= plain.take(split) + plain.skip(split));
        lemma_decrypt_injective(key, register, tampered, good);
    }
}

/// A preallocation size below the decompressed size gives nothing. Where the
/// frame `data` opens to a stream that decodes to more bytes than the decoder
/// sets aside, decoding gives nothing rather than a part.
pub proof fn lemma_undersized_prealloc_decodes_to_nothing(decoder: ContextView, data: Seq<u8>)
    requires
        inflated(decoder.cipher_output(data)) matches Some(plain) && plain.len()
            > decoder.prealloc_size,
    ensures
        decoder.decoded(data).len() == 0,
{
}

/// Of several settings of the debug flag or of the preallocation size, the
/// last one stands, and either leaves everything else as it was.
pub proof fn lemma_last_setting_stands(
    view: ContextView,
    first_debug: bool,
    last_debug: bool,
    first_size: usize,
    last_size: usize,
)
    ensures
        view.with_debug(first_debug).with_debug(last_debug) == view.with_debug(last_debug),
        view.with_prealloc_size(first_size).with_prealloc_size(last_size)
            == view.with_prealloc_size(last_size),
        view.with_debug(view.debug) == view,
        view.with_prealloc_size(view.prealloc_size) == view,
        view.with_debug(last_debug).with_prealloc_size(last_size) == view.with_prealloc_size(
            last_size,
        ).with_debug(last_debug),
{
}

/// The debug flag has no bearing on what the pipeline returns or on the state
/// it leaves, and the preallocation size has none on the cipher or on
/// encoding: it only bounds what decoding may return.
pub proof fn lemma_settings_keep_results(
    view: ContextView,
    debug: bool,
    size: usize,
    data: Seq<u8>,
    out: Seq<u8>,
    after: ContextView,
)
    ensures
        view.with_debug(debug).cipher_output(data) == view.cipher_output(data),
        view.with_debug(debug).after_cipher(data) == view.after_cipher(data).with_debug(debug),
        view.with_debug(debug).decoded(data) == view.decoded(data),
        view.encodes(data, out, after) ==> view.with_debug(debug).encodes(
            data,
            out,
            after.with_debug(debug),
        ),
        view.with_prealloc_size(size).cipher_output(data) == view.cipher_output(data),
        view.with_prealloc_size(size).after_cipher(data) == view.after_cipher(
            data,
        ).with_prealloc_size(size),
        view.encodes(data, out, after) ==> view.with_prealloc_size(size).encodes(
            data,
            out,
            after.with_prealloc_size(size),
        ),
        view.with_prealloc_size(size).decoded(data) == if view.cipher_output(data).len() == 0 {
            Seq::<u8>::empty()
        } else {
            inflated_within(view.cipher_output(data), size as nat)
        },
{
    if view.encodes(data, out, after) {
        let stream = choose|stream: Seq<u8>|
            #[trigger] view.encodes_through(data, stream, out, after);
        assert(view.with_debug(debug).encodes_through(data, stream, out, after.with_debug(debug)));
        assert(view.with_prealloc_size(size).encodes_through(
            data,
            stream,
            out,
            after.with_prealloc_size(size),
        ));
    }
}

} // verus!
