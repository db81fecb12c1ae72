//! AES-256 in eight-bit cipher-feedback mode.
//!
//! The block cipher itself comes from the `aes` crate and is trusted. The
//! feedback mode around it is written and proved here: every byte of output is
//! the input byte XORed with the first byte of the encrypted shift register,
//! and the register then takes the ciphertext byte in at its end.
//!
//! The state between calls is plain data, the key and the register, so that
//! what a call returns is a function of that data and the input alone.
use aes::cipher::generic_array::GenericArray;
use aes::cipher::{BlockEncrypt, KeyInit};
use vstd::prelude::*;

verus! {

/// Length of an AES-256 key in bytes.
pub const KEY_LEN: usize = 32;

/// Length of an AES block, and so of the shift register, in bytes.
pub const BLOCK_LEN: usize = 16;

/// The AES-256 encryption of one 16-byte `block` under a 32-byte `key`.
pub uninterp spec fn aes256_block(key: Seq<u8>, block: Seq<u8>) -> Seq<u8>;

/// Trusted: `aes::Aes256Enc::new` (`KeyInit`) and `encrypt_block`
/// (`BlockEncrypt`). Keys the cipher and encrypts one block; the contract says
/// that the 16 bytes returned are the AES-256 encryption of `block` under
/// `key`.
#[verifier::external_body]
fn aes256_encrypt_block(key: &[u8], block: &[u8; 16]) -> (out: [u8; 16])
    requires
        key@.len() == KEY_LEN,
    ensures
        out@ == aes256_block(key@, block@),
{
    let mut buffer = GenericArray::from(*block);
    aes::Aes256Enc::new(GenericArray::from_slice(key)).encrypt_block(&mut buffer);
    buffer.into()
}

/// The keystream byte that a register yields: the first byte of its encryption.
pub open spec fn keystream_byte(key: Seq<u8>, register: Seq<u8>) -> u8 {
    aes256_block(key, register)[0]
}

/// The shift register after the ciphertext `fed` has passed through it: as
/// many bytes as the register holds, taken from the end of the old register
/// followed by the ciphertext.
pub open spec fn register_after(register: Seq<u8>, fed: Seq<u8>) -> Seq<u8> {
    (register + fed).skip(fed.len() as int)
}

/// The ciphertext of `plain`, starting from `register`.
pub open spec fn cfb8_encrypted(key: Seq<u8>, register: Seq<u8>, plain: Seq<u8>) -> Seq<u8>
    decreases plain.len(),
{
    if plain.len() == 0 {
        Seq::empty()
    } else {
        let head = cfb8_encrypted(key, register, plain.drop_last());
        head.push(plain.last() ^ keystream_byte(key, register_after(register, head)))
    }
}

/// The plaintext of `data`, starting from `register`. Each byte depends only
/// on the ciphertext before it.
pub open spec fn cfb8_decrypted(key: Seq<u8>, register: Seq<u8>, data: Seq<u8>) -> Seq<u8> {
    Seq::new(
        data.len(),
        |i: int| data[i] ^ keystream_byte(key, register_after(register, data.take(i))),
    )
}

/// Encryption keeps the length.
pub proof fn lemma_encrypted_len(key: Seq<u8>, register: Seq<u8>, plain: Seq<u8>)
    ensures
        cfb8_encrypted(key, register, plain).len() == plain.len(),
    decreases plain.len(),
{
    if plain.len() > 0 {
        lemma_encrypted_len(key, register, plain.drop_last());
    }
}

/// The ciphertext of a prefix is the prefix of the ciphertext.
pub proof fn lemma_encrypted_prefix(key: Seq<u8>, register: Seq<u8>, plain: Seq<u8>, n: int)
    requires
        0 <= n <= plain.len(),
    ensures
        cfb8_encrypted(key, register, plain.take(n)) == cfb8_encrypted(key, register, plain).take(n),
    decreases plain.len(),
{
    lemma_encrypted_len(key, register, plain);
    if n == plain.len() {
        assert(plain.take(n) == plain);
        assert(cfb8_encrypted(key, register, plain).take(n) == cfb8_encrypted(
            key,
            register,
            plain,
        ));
    } else {
        let shorter = plain.drop_last();
        lemma_encrypted_prefix(key, register, shorter, n);
        lemma_encrypted_len(key, register, shorter);
        assert(shorter.take(n) == plain.take(n));
        assert(cfb8_encrypted(key, register, plain).take(n) == cfb8_encrypted(
            key,
            register,
            shorter,
        ).take(n));
    }
}

/// Passing ciphertext through the register in two parts is passing it at once.
pub proof fn lemma_register_after_concat(register: Seq<u8>, first: Seq<u8>, second: Seq<u8>)
    ensures
        register_after(register, first + second) == register_after(
            register_after(register, first),
            second,
        ),
{
    assert(register_after(register, first + second) =~= register_after(
        register_after(register, first),
        second,
    ));
}

/// Encrypting in two calls is encrypting at once: the ciphertext of
/// `first + second` is the ciphertext of `first` followed by that of `second`
/// from the register that `first` left.
pub proof fn lemma_encrypted_concat(
    key: Seq<u8>,
    register: Seq<u8>,
    first: Seq<u8>,
    second: Seq<u8>,
)
    ensures
        cfb8_encrypted(key, register, first + second) == cfb8_encrypted(key, register, first)
            + cfb8_encrypted(
            key,
            register_after(register, cfb8_encrypted(key, register, first)),
            second,
        ),
    decreases second.len(),
{
    let head = cfb8_encrypted(key, register, first);
    let between = register_after(register, head);
    if second.len() == 0 {
        assert(first + second =~= first);
        assert(head + cfb8_encrypted(key, between, second) =~= head);
    } else {
        let shorter = second.drop_last();
        lemma_encrypted_concat(key, register, first, shorter);
        assert((first + second).drop_last() =~= first + shorter);
        let tail = cfb8_encrypted(key, between, shorter);
        lemma_register_after_concat(register, head, tail);
        assert(cfb8_encrypted(key, register, first + second) =~= head + cfb8_encrypted(
            key,
            between,
            second,
        ));
    }
}

/// Decrypting in two calls is decrypting at once: the plaintext of
/// `first + second` is the plaintext of `first` followed by that of `second`
/// from the register that `first` left.
pub proof fn lemma_decrypted_concat(
    key: Seq<u8>,
    register: Seq<u8>,
    first: Seq<u8>,
    second: Seq<u8>,
)
    ensures
        cfb8_decrypted(key, register, first + second) == cfb8_decrypted(key, register, first)
            + cfb8_decrypted(key, register_after(register, first), second),
{
    let whole = cfb8_decrypted(key, register, first + second);
    let head = cfb8_decrypted(key, register, first);
    let between = register_after(register, first);
    let tail = cfb8_decrypted(key, between, second);
    assert forall|i: int| 0 <= i < whole.len() implies whole[i] == (head + tail)[i] by {
        if i < first.len() {
            assert((first + second).take(i) =~= first.take(i));
        } else {
            let j = i - first.len();
            assert((first + second).take(i) =~= first + second.take(j));
            lemma_register_after_concat(register, first, second.take(j));
        }
    }
    assert(whole =~= head + tail);
}

/// Decryption undoes encryption from the same key and register.
pub proof fn lemma_decrypt_inverts_encrypt(key: Seq<u8>, register: Seq<u8>, plain: Seq<u8>)
    ensures
        cfb8_decrypted(key, register, cfb8_encrypted(key, register, plain)) == plain,
{
    let sealed = cfb8_encrypted(key, register, plain);
    let opened = cfb8_decrypted(key, register, sealed);
    lemma_encrypted_len(key, register, plain);
    assert forall|i: int| 0 <= i < plain.len() implies opened[i] == plain[i] by {
        let upto = plain.take(i + 1);
        lemma_encrypted_prefix(key, register, plain, i + 1);
        lemma_encrypted_prefix(key, register, plain, i);
        lemma_encrypted_len(key, register, upto);
        assert(upto.drop_last() == plain.take(i));
        assert(upto.last() == plain[i]);
        let stream = keystream_byte(key, register_after(register, sealed.take(i)));
        assert(cfb8_encrypted(key, register, upto).last() == plain[i] ^ stream);
        assert(sealed[i] == sealed.take(i + 1).last());
        lemma_xor_twice(plain[i], stream);
    }
    assert(opened =~= plain);
}

/// Two ciphertexts of one length with the same plaintext agree on every
/// prefix.
pub proof fn lemma_decrypt_injective_upto(
    key: Seq<u8>,
    register: Seq<u8>,
    a: Seq<u8>,
    b: Seq<u8>,
    n: int,
)
    requires
        a.len() == b.len(),
        cfb8_decrypted(key, register, a) == cfb8_decrypted(key, register, b),
        0 <= n <= a.len(),
    ensures
        a.take(n) == b.take(n),
    decreases n,
{
    if n == 0 {
        assert(a.take(0) =~= b.take(0));
    } else {
        let i = n - 1;
        lemma_decrypt_injective_upto(key, register, a, b, i);
        let stream = keystream_byte(key, register_after(register, a.take(i)));
        assert(cfb8_decrypted(key, register, a)[i] == a[i] ^ stream);
        assert(cfb8_decrypted(key, register, b)[i] == b[i] ^ stream);
        lemma_xor_twice(a[i], stream);
        lemma_xor_twice(b[i], stream);
        assert(a.take(n) =~= a.take(i).push(a[i]));
        assert(b.take(n) =~= b.take(i).push(b[i]));
    }
}

/// Two ciphertexts of one length with the same plaintext are the same.
pub proof fn lemma_decrypt_injective(key: Seq<u8>, register: Seq<u8>, a: Seq<u8>, b: Seq<u8>)
    requires
        a.len() == b.len(),
        cfb8_decrypted(key, register, a) == cfb8_decrypted(key, register, b),
    ensures
        a == b,
{
    lemma_decrypt_injective_upto(key, register, a, b, a.len() as int);
    assert(a.take(a.len() as int) =~= a);
    assert(b.take(b.len() as int) =~= b);
}

/// The plaintext of a prefix is the prefix of the plaintext.
pub proof fn lemma_decrypted_prefix(key: Seq<u8>, register: Seq<u8>, data: Seq<u8>, n: int)
    requires
        0 <= n <= data.len(),
    ensures
        cfb8_decrypted(key, register, data.take(n)) == cfb8_decrypted(key, register, data).take(n),
{
    assert forall|i: int| 0 <= i < n implies #[trigger] data.take(n).take(i) == data.take(i) by {
        assert(data.take(n).take(i) =~= data.take(i));
    }
    assert(cfb8_decrypted(key, register, data.take(n)) =~= cfb8_decrypted(
        key,
        register,
        data,
    ).take(n));
}

/// XOR with the same byte twice gives the byte back.
pub proof fn lemma_xor_twice(a: u8, b: u8)
    ensures
        (a ^ b) ^ b == a,
{
    assert((a ^ b) ^ b == a) by (bit_vector);
}

/// Feeding ciphertext through the register byte by byte is the same as
/// feeding it at once.
pub proof fn lemma_register_after_push(register: Seq<u8>, fed: Seq<u8>, byte: u8)
    requires
        register.len() > 0,
    ensures
        register_after(register, fed.push(byte)) == register_after(register, fed).skip(1).push(
            byte,
        ),
{
    assert(register_after(register, fed.push(byte)) =~= register_after(register, fed).skip(
        1,
    ).push(byte));
}

/// The register moved on by one ciphertext byte.
fn fed(register: &[u8; 16], byte: u8) -> (next: [u8; 16])
    ensures
        next@ == register@.skip(1).push(byte),
{
    let next = [
        register[1],
        register[2],
        register[3],
        register[4],
        register[5],
        register[6],
        register[7],
        register[8],
        register[9],
        register[10],
        register[11],
        register[12],
        register[13],
        register[14],
        register[15],
        byte,
    ];
    assert(next@ =~= register@.skip(1).push(byte));
    next
}

/// The state of the cipher between calls: the key and the shift register.
pub struct CipherState {
    key: Vec<u8>,
    register: [u8; 16],
}

impl CipherState {
    #[verifier::type_invariant]
    pub closed spec fn well_formed(self) -> bool {
        self.key@.len() == KEY_LEN
    }

    /// The key.
    pub closed spec fn key(self) -> Seq<u8> {
        self.key@
    }

    /// The current contents of the shift register.
    pub closed spec fn register(self) -> Seq<u8> {
        self.register@
    }

    /// Takes the key and loads `iv` into the register. The key must have
    /// 32 bytes and the initialization vector 16; otherwise there is no state.
    pub fn new(key: &[u8], iv: &[u8]) -> (state: Option<CipherState>)
        ensures
            state is Some <==> key@.len() == KEY_LEN && iv@.len() == BLOCK_LEN,
            state matches Some(s) ==> s.key() == key@ && s.register() == iv@,
    {
        if key.len() != KEY_LEN || iv.len() != BLOCK_LEN {
            return None;
        }
        let register = [
            iv[0],
            iv[1],
            iv[2],
            iv[3],
            iv[4],
            iv[5],
            iv[6],
            iv[7],
            iv[8],
            iv[9],
            iv[10],
            iv[11],
            iv[12],
            iv[13],
            iv[14],
            iv[15],
        ];
        assert(register@ =~= iv@);
        Some(CipherState { key: vstd::slice::slice_to_vec(key), register })
    }

    /// The key bytes.
    pub fn key_bytes(&self) -> (key: &[u8])
        ensures
            key@ == self.key(),
            key@.len() == KEY_LEN,
    {
        proof {
            use_type_invariant(self);
        }
        self.key.as_slice()
    }

    /// The register always holds one block, and the key is an AES-256 key.
    pub proof fn lemma_lengths(self)
        requires
            self.well_formed(),
        ensures
            self.register().len() == BLOCK_LEN,
            self.key().len() == KEY_LEN,
    {
    }

    /// Encrypts `plain` and moves the register on by the ciphertext.
    pub fn encrypt(&mut self, plain: &[u8]) -> (out: Vec<u8>)
        ensures
            out@ == cfb8_encrypted(old(self).key(), old(self).register(), plain@),
            final(self).key() == old(self).key(),
            final(self).register() == register_after(old(self).register(), out@),
    {
        proof {
            use_type_invariant(&*self);
        }
        let mut out: Vec<u8> = Vec::with_capacity(plain.len());
        let mut i: usize = 0;
        assert(plain@.take(0) =~= Seq::<u8>::empty());
        assert(register_after(self.register@, out@) =~= self.register@);
        while i < plain.len()
            invariant
                i <= plain@.len(),
                self.well_formed(),
                self.key() == old(self).key(),
                out@ == cfb8_encrypted(old(self).key(), old(self).register(), plain@.take(i as int)),
                self.register() == register_after(old(self).register(), out@),
            decreases plain@.len() - i,
        {
            let block = aes256_encrypt_block(self.key.as_slice(), &self.register);
            let byte = plain[i] ^ block[0];
            proof {
                lemma_register_after_push(old(self).register(), out@, byte);
                assert(plain@.take(i + 1).drop_last() =~= plain@.take(i as int));
            }
            self.register = fed(&self.register, byte);
            out.push(byte);
            i = i + 1;
        }
        assert(plain@.take(i as int) =~= plain@);
        out
    }

    /// Decrypts `data` and moves the register on by it.
    pub fn decrypt(&mut self, data: &[u8]) -> (out: Vec<u8>)
        ensures
            out@ == cfb8_decrypted(old(self).key(), old(self).register(), data@),
            final(self).key() == old(self).key(),
            final(self).register() == register_after(old(self).register(), data@),
    {
        proof {
            use_type_invariant(&*self);
        }
        let mut out: Vec<u8> = Vec::with_capacity(data.len());
        let mut i: usize = 0;
        assert(register_after(self.register@, data@.take(0)) =~= self.register@);
        while i < data.len()
            invariant
                i <= data@.len(),
                self.well_formed(),
                self.key() == old(self).key(),
                out@ == cfb8_decrypted(old(self).key(), old(self).register(), data@.take(i as int)),
                self.register() == register_after(old(self).register(), data@.take(i as int)),
            decreases data@.len() - i,
        {
            let block = aes256_encrypt_block(self.key.as_slice(), &self.register);
            let byte = data[i] ^ block[0];
            proof {
                let before = data@.take(i as int);
                let after = data@.take(i + 1);
                lemma_register_after_push(old(self).register(), before, data@[i as int]);
                assert(after =~= before.push(data@[i as int]));
                assert forall|j: int| 0 <= j <= i implies #[trigger] after.take(j) == data@.take(
                    j,
                ) by {
                    assert(after.take(j) =~= data@.take(j));
                }
                assert forall|j: int| 0 <= j < i implies #[trigger] before.take(j) == data@.take(
                    j,
                ) by {
                    assert(before.take(j) =~= data@.take(j));
                }
                assert(out@.push(byte) =~= cfb8_decrypted(
                    old(self).key(),
                    old(self).register(),
                    after,
                ));
            }
            self.register = fed(&self.register, data[i]);
            out.push(byte);
            i = i + 1;
        }
        assert(data@.take(i as int) =~= data@);
        out
    }
}

} // verus!
