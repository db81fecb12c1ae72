//! The per-connection context: direction, cipher state, counter, codec handle
//! and sizing hint.
use crate::cfb8::{CipherState, BLOCK_LEN, KEY_LEN};
use crate::codec::Codec;
use vstd::prelude::*;

verus! {

/// Size of the buffer that a new context sets aside for decompression: 2 MiB.
pub const DEFAULT_PREALLOC_SIZE: usize = 2 * 1024 * 1024;

/// Direction of a context, fixed when the context is made.
#[derive(Clone, Copy, Debug, PartialEq, Eq, Structural)]
pub enum Mode {
    /// Compress, then encrypt.
    Encode,
    /// Decrypt, then decompress.
    Decode,
}

/// Why a context could not be initialized.
#[derive(Clone, Copy, Debug, PartialEq, Eq, Structural)]
pub enum InitError {
    /// The key does not have 32 bytes.
    KeyLength,
    /// The initialization vector does not have 16 bytes.
    IvLength,
}

/// What a context is, apart from its codec handle.
pub struct ContextView {
    pub mode: Mode,
    pub debug: bool,
    pub counter: u64,
    /// The key, once the context is initialized.
    pub key: Option<Seq<u8>>,
    /// The cipher's shift register, once the context is initialized.
    pub register: Option<Seq<u8>>,
    pub prealloc_size: usize,
}

impl ContextView {
    /// Key and register come together, with the lengths of AES-256.
    pub open spec fn well_formed(self) -> bool {
        &&& self.key is Some <==> self.register is Some
        &&& self.key matches Some(key) ==> key.len() == KEY_LEN
        &&& self.register matches Some(register) ==> register.len() == BLOCK_LEN
    }

    /// A fresh context of the given direction.
    pub open spec fn fresh(mode: Mode) -> ContextView {
        ContextView {
            mode,
            debug: false,
            counter: 0,
            key: None,
            register: None,
            prealloc_size: DEFAULT_PREALLOC_SIZE,
        }
    }

    /// A key and an initialization vector have been set.
    pub open spec fn initialized(self) -> bool {
        self.key is Some
    }

    /// The view after initialization with a key and an initialization vector.
    pub open spec fn keyed(self, key: Seq<u8>, iv: Seq<u8>) -> ContextView {
        ContextView { key: Some(key), register: Some(iv), ..self }
    }

    /// The view with the debug flag set to `debug`.
    pub open spec fn with_debug(self, debug: bool) -> ContextView {
        ContextView { debug, ..self }
    }

    /// The view with the preallocation size set to `prealloc_size`.
    pub open spec fn with_prealloc_size(self, prealloc_size: usize) -> ContextView {
        ContextView { prealloc_size, ..self }
    }
}

/// The state of one direction of one connection.
///
/// The direction is that of the codec handle the context owns: a compressor
/// for encoding, a decompressor for decoding, never both and never neither.
pub struct Context {
    pub(crate) debug: bool,
    pub(crate) counter: u64,
    pub(crate) cipher_state: Option<CipherState>,
    pub(crate) prealloc_size: usize,
    pub(crate) codec: Codec,
}

impl View for Context {
    type V = ContextView;

    open(crate) spec fn view(&self) -> ContextView {
        ContextView {
            mode: self.codec.mode(),
            debug: self.debug,
            counter: self.counter,
            key: match self.cipher_state {
                Some(state) => Some(state.key()),
                None => None,
            },
            register: match self.cipher_state {
                Some(state) => Some(state.register()),
                None => None,
            },
            prealloc_size: self.prealloc_size,
        }
    }
}

impl Context {
    /// Makes a context for one direction, not yet initialized.
    pub fn new(mode: Mode) -> (context: Context)
        ensures
            context@ == ContextView::fresh(mode),
    {
        Context {
            debug: false,
            counter: 0,
            cipher_state: None,
            prealloc_size: DEFAULT_PREALLOC_SIZE,
            codec: Codec::new(mode),
        }
    }

    /// Sets the key and the initialization vector. The key must have 32 bytes
    /// and the vector 16; on any other input nothing changes. The counter
    /// stays where it is, so that setting a key again never takes it back.
    pub fn init_state(&mut self, key: &[u8], iv: &[u8]) -> (outcome: Result<(), InitError>)
        ensures
            final(self)@.well_formed(),
            key@.len() != KEY_LEN ==> outcome == Err::<(), InitError>(InitError::KeyLength),
            key@.len() == KEY_LEN && iv@.len() != BLOCK_LEN ==> outcome == Err::<(), InitError>(
                InitError::IvLength,
            ),
            key@.len() == KEY_LEN && iv@.len() == BLOCK_LEN ==> outcome is Ok,
            outcome is Ok ==> final(self)@ == old(self)@.keyed(key@, iv@),
            outcome is Err ==> final(self)@ == old(self)@,
    {
        proof {
            if let Some(state) = &self.cipher_state {
                use_type_invariant(state);
                state.lemma_lengths();
            }
        }
        if key.len() != KEY_LEN {
            return Err(InitError::KeyLength);
        }
        if iv.len() != BLOCK_LEN {
            return Err(InitError::IvLength);
        }
        self.cipher_state = CipherState::new(key, iv);
        Ok(())
    }

    /// Turns timing instrumentation on or off. The flag is kept for the host
    /// to read; no call returns anything else on its account.
    pub fn set_debug(&mut self, debug: bool)
        ensures
            final(self)@ == old(self)@.with_debug(debug),
            final(self)@.well_formed(),
    {
        proof {
            if let Some(state) = &self.cipher_state {
                use_type_invariant(state);
                state.lemma_lengths();
            }
        }
        self.debug = debug;
    }

    /// Sets the size of the buffer set aside for decompression.
    pub fn set_prealloc_size(&mut self, prealloc_size: usize)
        ensures
            final(self)@ == old(self)@.with_prealloc_size(prealloc_size),
            final(self)@.well_formed(),
    {
        proof {
            if let Some(state) = &self.cipher_state {
                use_type_invariant(state);
                state.lemma_lengths();
            }
        }
        self.prealloc_size = prealloc_size;
    }

    /// The direction the context was made for.
    pub fn mode(&self) -> (mode: Mode)
        ensures
            mode == self@.mode,
    {
        self.codec.direction()
    }

    /// Whether timing instrumentation is on.
    pub fn debug(&self) -> (debug: bool)
        ensures
            debug == self@.debug,
    {
        self.debug
    }

    /// The counter that the next cipher step will use.
    pub fn counter(&self) -> (counter: u64)
        ensures
            counter == self@.counter,
    {
        self.counter
    }

    /// The size of the buffer set aside for decompression.
    pub fn prealloc_size(&self) -> (prealloc_size: usize)
        ensures
            prealloc_size == self@.prealloc_size,
    {
        self.prealloc_size
    }

    /// Whether a key and an initialization vector have been set.
    pub fn is_initialized(&self) -> (initialized: bool)
        ensures
            initialized == self@.initialized(),
    {
        self.cipher_state.is_some()
    }
}

} // verus!
