use cfb8::cipher::{AsyncStreamCipher, KeyIvInit};
use native_crypto::cfb8::{CipherState, BLOCK_LEN, KEY_LEN};
use native_crypto::context::{Context, Mode};
use native_crypto::digest::{compute_checksum, CHECKSUM_LEN};
use sha2::Digest;

fn unhex(text: &str) -> Vec<u8> {
    (0..text.len() / 2).map(|i| u8::from_str_radix(&text[2 * i..2 * i + 2], 16).unwrap()).collect()
}

fn reference_encrypt(key: &[u8], iv: &[u8], plain: &[u8]) -> Vec<u8> {
    let mut buffer = plain.to_vec();
    cfb8::Encryptor::<aes::Aes256>::new_from_slices(key, iv).unwrap().encrypt(&mut buffer);
    buffer
}

fn reference_checksum(key: &[u8], counter: u64, payload: &[u8]) -> Vec<u8> {
    let mut hasher = sha2::Sha256::new();
    hasher.update(counter.to_le_bytes());
    hasher.update(payload);
    hasher.update(key);
    hasher.finalize()[..8].to_vec()
}

#[test]
fn lengths_are_those_of_aes_256() {
    assert_eq!(KEY_LEN, 32);
    assert_eq!(BLOCK_LEN, 16);
    assert_eq!(CHECKSUM_LEN, 8);
}

#[test]
fn cipher_state_needs_exact_lengths() {
    assert!(CipherState::new(&[0u8; 32], &[0u8; 16]).is_some());
    assert!(CipherState::new(&[0u8; 16], &[0u8; 16]).is_none());
    assert!(CipherState::new(&[0u8; 32], &[0u8; 32]).is_none());
    assert!(CipherState::new(&[], &[]).is_none());
}

#[test]
fn encrypt_matches_the_published_vector() {
    let key = unhex("603deb1015ca71be2b73aef0857d77811f352c073b6108d72d9810a30914dff4");
    let iv = unhex("000102030405060708090a0b0c0d0e0f");
    let plain = unhex("6bc1bee22e409f96e93d7e117393172aae2d");
    let expected = unhex("dc1f1a8520a64db55fcc8ac554844e889700");
    let mut state = CipherState::new(&key, &iv).unwrap();
    assert_eq!(state.key_bytes(), &key[..]);
    assert_eq!(state.encrypt(&plain), expected);
}

#[test]
fn decrypt_matches_the_published_vector() {
    let key = unhex("603deb1015ca71be2b73aef0857d77811f352c073b6108d72d9810a30914dff4");
    let iv = unhex("000102030405060708090a0b0c0d0e0f");
    let plain = unhex("6bc1bee22e409f96e93d7e117393172aae2d");
    let sealed = unhex("dc1f1a8520a64db55fcc8ac554844e889700");
    let mut state = CipherState::new(&key, &iv).unwrap();
    assert_eq!(state.decrypt(&sealed), plain);
}

#[test]
fn encrypting_in_pieces_is_encrypting_at_once() {
    let key = [0x42u8; 32];
    let iv = [0x24u8; 16];
    let plain: Vec<u8> = (0..200u8).collect();
    let expected = reference_encrypt(&key, &iv, &plain);
    let mut whole = CipherState::new(&key, &iv).unwrap();
    assert_eq!(whole.encrypt(&plain), expected);
    let mut pieces = CipherState::new(&key, &iv).unwrap();
    let mut out = pieces.encrypt(&plain[..3]);
    out.extend(pieces.encrypt(&plain[3..3]));
    out.extend(pieces.encrypt(&plain[3..50]));
    out.extend(pieces.encrypt(&plain[50..]));
    assert_eq!(out, expected);
}

#[test]
fn decrypting_in_pieces_undoes_encrypting() {
    let key = [0x42u8; 32];
    let iv = [0x24u8; 16];
    let plain: Vec<u8> = (0..200u8).rev().collect();
    let sealed = reference_encrypt(&key, &iv, &plain);
    let mut state = CipherState::new(&key, &iv).unwrap();
    let mut out = state.decrypt(&sealed[..17]);
    out.extend(state.decrypt(&sealed[17..]));
    assert_eq!(out, plain);
    assert!(state.decrypt(&[]).is_empty());
}

#[test]
fn checksum_is_the_head_of_the_digest() {
    let key = [5u8; 32];
    let payload = b"payload";
    for counter in [0u64, 1, 255, 256, 0x0102_0304_0506_0708, u64::MAX] {
        let sum = compute_checksum(&key, counter, payload);
        assert_eq!(sum.to_vec(), reference_checksum(&key, counter, payload));
    }
    assert_ne!(compute_checksum(&key, 0, payload), compute_checksum(&key, 1, payload));
    assert_eq!(compute_checksum(&[], 0, &[]).to_vec(), sha2::Sha256::digest([0u8; 8])[..8].to_vec());
}

#[test]
fn checksum_of_known_input() {
    // SHA-256 of the three bytes "abc" begins ba7816bf8f01cfea; here the
    // input is eight counter bytes followed by nothing, so the vector is that
    // of those eight bytes taken as text.
    let counter = u64::from_le_bytes(*b"abcdbcde");
    let sum = compute_checksum(b"defgefghfghighijhijkijkljklmklmnlmnomnopnopq", counter, b"cdef");
    // "abcdbcdecdefdefgefghfghighijhijkijkljklmklmnlmnomnopnopq"
    assert_eq!(sum.to_vec(), unhex("248d6a61d20638b8"));
}

#[test]
fn sealed_frame_is_payload_and_checksum_encrypted() {
    let key: Vec<u8> = (0..32u8).collect();
    let iv: Vec<u8> = (100..116u8).collect();
    let mut context = Context::new(Mode::Encode);
    context.init_state(&key, &iv).unwrap();
    let first = context.process(b"first payload");
    let second = context.process(b"second");
    assert_eq!(first.len(), 13 + 8);
    assert_eq!(second.len(), 6 + 8);
    assert_eq!(context.counter(), 2);

    let mut frames = b"first payload".to_vec();
    frames.extend(reference_checksum(&key, 0, b"first payload"));
    frames.extend(b"second");
    frames.extend(reference_checksum(&key, 1, b"second"));
    let expected = reference_encrypt(&key, &iv, &frames);
    let mut got = first.clone();
    got.extend(&second);
    assert_eq!(got, expected);
}

#[test]
fn opening_gives_the_payload_back() {
    let key = [11u8; 32];
    let iv = [12u8; 16];
    let mut sealer = Context::new(Mode::Encode);
    let mut opener = Context::new(Mode::Decode);
    sealer.init_state(&key, &iv).unwrap();
    opener.init_state(&key, &iv).unwrap();
    for payload in [&b"one"[..], &b""[..], &b"a longer payload than one block of the cipher"[..]] {
        let sealed = sealer.process(payload);
        assert_eq!(sealed.len(), payload.len() + 8);
        assert_eq!(opener.process(&sealed), payload.to_vec());
    }
    assert_eq!(sealer.counter(), 3);
    assert_eq!(opener.counter(), 3);
}

#[test]
fn counter_rises_by_one_per_call() {
    let mut context = Context::new(Mode::Encode);
    context.init_state(&[1u8; 32], &[1u8; 16]).unwrap();
    let mut frames: Vec<Vec<u8>> = Vec::new();
    for call in 0..20u64 {
        assert_eq!(context.counter(), call);
        frames.push(context.process(b"same payload"));
    }
    assert_eq!(context.counter(), 20);
    for i in 0..frames.len() {
        for j in i + 1..frames.len() {
            assert_ne!(frames[i], frames[j]);
        }
    }
}

#[test]
fn counter_rises_on_a_frame_that_does_not_open() {
    let mut opener = Context::new(Mode::Decode);
    opener.init_state(&[1u8; 32], &[1u8; 16]).unwrap();
    assert!(opener.process(&[0u8; 40]).is_empty());
    assert_eq!(opener.counter(), 1);
}

#[test]
fn cipher_does_not_run_before_initialization() {
    let mut sealer = Context::new(Mode::Encode);
    assert!(sealer.process(b"payload").is_empty());
    assert_eq!(sealer.counter(), 0);
    let mut opener = Context::new(Mode::Decode);
    assert!(opener.process(&[0u8; 40]).is_empty());
    assert_eq!(opener.counter(), 0);
}
