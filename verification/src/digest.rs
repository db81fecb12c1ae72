//! SHA-256, from the `sha2` crate, and the checksum that frames carry.
use sha2::Digest;
use vstd::prelude::*;

verus! {

/// Length of the checksum at the end of a frame, in bytes.
pub const CHECKSUM_LEN: usize = 8;

/// The SHA-256 digest of `data`: 32 bytes.
pub uninterp spec fn sha256(data: Seq<u8>) -> Seq<u8>;

/// Trusted: `sha2::Sha256::digest` (`Digest`). Hashes a buffer in one call;
/// the contract says that the 32 bytes returned are the SHA-256 digest of it.
#[verifier::external_body]
fn sha256_digest(data: &[u8]) -> (out: [u8; 32])
    ensures
        out@ == sha256(data@),
{
    sha2::Sha256::digest(data).into()
}

/// The eight bytes of a counter, least significant first.
pub open spec fn counter_bytes(counter: u64) -> Seq<u8> {
    Seq::new(8, |i: int| ((counter >> ((8 * i) as u64)) & 0xff) as u8)
}

/// What is hashed for a payload: the counter, the payload, then the key.
pub open spec fn checksum_input(key: Seq<u8>, counter: u64, payload: Seq<u8>) -> Seq<u8> {
    counter_bytes(counter) + payload + key
}

/// The checksum of a payload: the first eight bytes of the digest of
/// [`checksum_input`].
pub open spec fn checksum(key: Seq<u8>, counter: u64, payload: Seq<u8>) -> Seq<u8> {
    Seq::new(CHECKSUM_LEN as nat, |i: int| sha256(checksum_input(key, counter, payload))[i])
}

/// Different counters have different bytes.
pub proof fn lemma_counter_bytes_injective(a: u64, b: u64)
    requires
        counter_bytes(a) == counter_bytes(b),
    ensures
        a == b,
{
    let x = counter_bytes(a);
    let y = counter_bytes(b);
    assert(x[0] == y[0] && x[1] == y[1] && x[2] == y[2] && x[3] == y[3]);
    assert(x[4] == y[4] && x[5] == y[5] && x[6] == y[6] && x[7] == y[7]);
    assert(a == b) by (bit_vector)
        requires
            ((a >> 0u64) & 0xff) as u8 == ((b >> 0u64) & 0xff) as u8,
            ((a >> 8u64) & 0xff) as u8 == ((b >> 8u64) & 0xff) as u8,
            ((a >> 16u64) & 0xff) as u8 == ((b >> 16u64) & 0xff) as u8,
            ((a >> 24u64) & 0xff) as u8 == ((b >> 24u64) & 0xff) as u8,
            ((a >> 32u64) & 0xff) as u8 == ((b >> 32u64) & 0xff) as u8,
            ((a >> 40u64) & 0xff) as u8 == ((b >> 40u64) & 0xff) as u8,
            ((a >> 48u64) & 0xff) as u8 == ((b >> 48u64) & 0xff) as u8,
            ((a >> 56u64) & 0xff) as u8 == ((b >> 56u64) & 0xff) as u8,
    ;
}

/// Writes the bytes of a counter, least significant first, at the end of `out`.
fn push_counter_bytes(out: &mut Vec<u8>, counter: u64)
    ensures
        final(out)@ == old(out)@ + counter_bytes(counter),
{
    let mut i: u32 = 0;
    while i < 8
        invariant
            i <= 8,
            out@ == old(out)@ + counter_bytes(counter).take(i as int),
        decreases 8 - i,
    {
        let byte = ((counter >> (8 * i)) & 0xff) as u8;
        assert(byte == counter_bytes(counter)[i as int]) by {
            assert((8 * i) as u64 == ((8 * (i as int)) as u64));
            assert(((counter >> (8 * i)) & 0xff) == ((counter >> ((8 * i) as u64)) & 0xff))
                by (bit_vector)
                requires
                    i < 8,
            ;
        }
        out.push(byte);
        assert(out@ == old(out)@ + counter_bytes(counter).take(i + 1)) by {
            assert(counter_bytes(counter).take(i + 1) =~= counter_bytes(counter).take(
                i as int,
            ).push(byte));
            assert(out@ =~= old(out)@ + counter_bytes(counter).take(i + 1));
        }
        i = i + 1;
    }
    assert(counter_bytes(counter).take(8) =~= counter_bytes(counter));
}

/// Computes the checksum of `payload` under `key` and `counter`.
pub fn compute_checksum(key: &[u8], counter: u64, payload: &[u8]) -> (sum: [u8; 8])
    ensures
        sum@ == checksum(key@, counter, payload@),
{
    let mut input: Vec<u8> = Vec::new();
    push_counter_bytes(&mut input, counter);
    assert(input@ =~= counter_bytes(counter));
    input.extend_from_slice(payload);
    assert(input@ =~= counter_bytes(counter) + payload@);
    input.extend_from_slice(key);
    assert(input@ =~= checksum_input(key@, counter, payload@));
    let digest = sha256_digest(input.as_slice());
    let sum = [
        digest[0],
        digest[1],
        digest[2],
        digest[3],
        digest[4],
        digest[5],
        digest[6],
        digest[7],
    ];
    assert(sum@ =~= checksum(key@, counter, payload@));
    sum
}

} // verus!
