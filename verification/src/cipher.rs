//! The cipher step of a context: frames that carry a checksum, sealed and
//! opened under the context's key, register and counter.
use crate::cfb8::{
    cfb8_decrypted, cfb8_encrypted, lemma_decrypt_inverts_encrypt, lemma_encrypted_len,
    register_after,
};
use crate::context::{Context, ContextView, Mode};
use crate::digest::{
    checksum, compute_checksum, counter_bytes, lemma_counter_bytes_injective, CHECKSUM_LEN,
};
use vstd::prelude::*;

verus! {

/// A payload followed by its checksum.
pub open spec fn frame(key: Seq<u8>, counter: u64, payload: Seq<u8>) -> Seq<u8> {
    payload + checksum(key, counter, payload)
}

/// The frame of a payload, encrypted.
pub open spec fn sealed(key: Seq<u8>, register: Seq<u8>, counter: u64, payload: Seq<u8>) -> Seq<
    u8,
> {
    cfb8_encrypted(key, register, frame(key, counter, payload))
}

/// The payload of an encrypted frame, where the frame is long enough to hold
/// a checksum and the checksum is that of the payload; `None` otherwise.
pub open spec fn opened(key: Seq<u8>, register: Seq<u8>, counter: u64, input: Seq<u8>) -> Option<
    Seq<u8>,
> {
    let plain = cfb8_decrypted(key, register, input);
    let split = plain.len() - CHECKSUM_LEN;
    if split < 0 {
        None
    } else if plain.skip(split) == checksum(key, counter, plain.take(split)) {
        Some(plain.take(split))
    } else {
        None
    }
}

impl ContextView {
    /// The cipher can run: the context is initialized and its counter has a
    /// successor.
    pub open spec fn ready(self) -> bool {
        self.initialized() && self.counter < u64::MAX
    }

    /// The ciphertext that passes through the register in a cipher step on
    /// `data`: what is produced when encoding, what is consumed when decoding.
    pub open spec fn ciphertext(self, data: Seq<u8>) -> Seq<u8> {
        match self.mode {
            Mode::Encode => sealed(self.key.unwrap(), self.register.unwrap(), self.counter, data),
            Mode::Decode => data,
        }
    }

    /// What a cipher step on `data` returns. Nothing where the cipher cannot
    /// run; the sealed frame when encoding; when decoding, the payload, or
    /// nothing where the frame does not open.
    pub open spec fn cipher_output(self, data: Seq<u8>) -> Seq<u8> {
        if !self.ready() {
            Seq::empty()
        } else {
            match self.mode {
                Mode::Encode => self.ciphertext(data),
                Mode::Decode => match opened(
                    self.key.unwrap(),
                    self.register.unwrap(),
                    self.counter,
                    data,
                ) {
                    Some(payload) => payload,
                    None => Seq::empty(),
                },
            }
        }
    }

    /// The view after a cipher step on `data`. Where the cipher ran, the
    /// counter is one higher and the register has moved on by the ciphertext,
    /// whether or not the frame opened.
    pub open spec fn after_cipher(self, data: Seq<u8>) -> ContextView {
        if !self.ready() {
            self
        } else {
            ContextView {
                counter: (self.counter + 1) as u64,
                register: Some(register_after(self.register.unwrap(), self.ciphertext(data))),
                ..self
            }
        }
    }
}

impl ContextView {
    /// The view after one cipher step on each of `inputs`, in turn.
    pub open spec fn after_steps(self, inputs: Seq<Seq<u8>>) -> ContextView
        decreases inputs.len(),
    {
        if inputs.len() == 0 {
            self
        } else {
            self.after_steps(inputs.drop_last()).after_cipher(inputs.last())
        }
    }
}

/// The counter never falls: after more steps it is at least what it was after
/// fewer.
pub proof fn lemma_counter_never_falls(start: ContextView, inputs: Seq<Seq<u8>>, i: int, j: int)
    requires
        0 <= i <= j <= inputs.len(),
    ensures
        start.after_steps(inputs.take(i)).counter <= start.after_steps(inputs.take(j)).counter,
    decreases j - i,
{
    if i < j {
        lemma_counter_never_falls(start, inputs, i, j - 1);
        assert(inputs.take(j).drop_last() =~= inputs.take(j - 1));
    }
}

/// No two steps of one context use the same counter. Of a run of cipher steps
/// on `inputs`, let step `i` be one on which the cipher runs, and `j` a later
/// one: the counter at step `j` is higher than at step `i`, and so the counter
/// bytes that enter the two checksums differ.
pub proof fn lemma_steps_use_distinct_counters(
    start: ContextView,
    inputs: Seq<Seq<u8>>,
    i: int,
    j: int,
)
    requires
        0 <= i < j <= inputs.len(),
        start.after_steps(inputs.take(i)).ready(),
    ensures
        start.after_steps(inputs.take(i)).counter < start.after_steps(inputs.take(j)).counter,
        counter_bytes(start.after_steps(inputs.take(i)).counter) != counter_bytes(
            start.after_steps(inputs.take(j)).counter,
        ),
{
    let at_i = start.after_steps(inputs.take(i));
    let at_j = start.after_steps(inputs.take(j));
    assert(inputs.take(i + 1).drop_last() =~= inputs.take(i));
    assert(start.after_steps(inputs.take(i + 1)).counter == at_i.counter + 1);
    lemma_counter_never_falls(start, inputs, i + 1, j);
    if counter_bytes(at_i.counter) == counter_bytes(at_j.counter) {
        lemma_counter_bytes_injective(at_i.counter, at_j.counter);
    }
}

/// Tells whether the bytes of `plain` from `split` on are the eight of `sum`.
fn trailer_matches(plain: &Vec<u8>, split: usize, sum: &[u8; 8]) -> (same: bool)
    requires
        split + CHECKSUM_LEN == plain@.len(),
    ensures
        same == (plain@.skip(split as int) == sum@),
{
    let total = plain.len();
    let mut i: usize = 0;
    while i < CHECKSUM_LEN
        invariant
            i <= CHECKSUM_LEN,
            split + CHECKSUM_LEN == total == plain@.len(),
            forall|j: int| 0 <= j < i ==> plain@[split + j] == sum@[j],
        decreases CHECKSUM_LEN - i,
    {
        if plain[split + i] != sum[i] {
            assert(plain@.skip(split as int)[i as int] != sum@[i as int]);
            return false;
        }
        i = i + 1;
    }
    assert(plain@.skip(split as int) =~= sum@);
    true
}

impl Context {
    /// Runs the cipher on `data` and returns what [`ContextView::cipher_output`]
    /// says: the sealed frame of `data` when encoding, the payload of the
    /// frame `data` when decoding, and an empty buffer where the context is
    /// not initialized, its counter is used up, or the frame does not open.
    ///
    /// Each call on which the cipher runs uses the counter once and raises it
    /// by one.
    pub fn process(&mut self, data: &[u8]) -> (out: Vec<u8>)
        ensures
            out@ == old(self)@.cipher_output(data@),
            final(self)@ == old(self)@.after_cipher(data@),
            final(self)@.well_formed(),
    {
        let mode = self.codec.direction();
        let counter = self.counter;
        match &mut self.cipher_state {
            None => Vec::new(),
            Some(state) => {
                proof {
                    use_type_invariant(&*state);
                    state.lemma_lengths();
                }
                if counter == u64::MAX {
                    return Vec::new();
                }
                self.counter = counter + 1;
                match mode {
                    Mode::Encode => {
                        let sum = compute_checksum(state.key_bytes(), counter, data);
                        let mut framed = vstd::slice::slice_to_vec(data);
                        framed.extend_from_slice(sum.as_slice());
                        assert(framed@ =~= frame(state.key(), counter, data@));
                        let out = state.encrypt(framed.as_slice());
                        proof {
                            use_type_invariant(&*state);
                            state.lemma_lengths();
                        }
                        out
                    },
                    Mode::Decode => {
                        let mut plain = state.decrypt(data);
                        proof {
                            use_type_invariant(&*state);
                            state.lemma_lengths();
                        }
                        if plain.len() < CHECKSUM_LEN {
                            return Vec::new();
                        }
                        let split = plain.len() - CHECKSUM_LEN;
                        let sum = compute_checksum(
                            state.key_bytes(),
                            counter,
                            vstd::slice::slice_subrange(plain.as_slice(), 0, split),
                        );
                        if !trailer_matches(&plain, split, &sum) {
                            return Vec::new();
                        }
                        plain.truncate(split);
                        plain
                    },
                }
            },
        }
    }
}

/// Opening a sealed frame under the same key, register and counter gives the
/// payload back.
pub proof fn lemma_open_inverts_seal(
    key: Seq<u8>,
    register: Seq<u8>,
    counter: u64,
    payload: Seq<u8>,
)
    ensures
        opened(key, register, counter, sealed(key, register, counter, payload)) == Some(payload),
{
    let framed = frame(key, counter, payload);
    lemma_decrypt_inverts_encrypt(key, register, framed);
    assert(framed.take(payload.len() as int) =~= payload);
    assert(framed.skip(payload.len() as int) =~= checksum(key, counter, payload));
}

/// A sealed frame is longer than its payload by the checksum.
pub proof fn lemma_sealed_len(key: Seq<u8>, register: Seq<u8>, counter: u64, payload: Seq<u8>)
    ensures
        sealed(key, register, counter, payload).len() == payload.len() + CHECKSUM_LEN,
{
    lemma_encrypted_len(key, register, frame(key, counter, payload));
}

} // verus!
