use native_crypto::context::{Context, Mode};
use native_crypto::pipeline::process;

fn key(seed: u8) -> Vec<u8> {
    (0..32u8).map(|i| i.wrapping_mul(7).wrapping_add(seed)).collect()
}

fn iv(seed: u8) -> Vec<u8> {
    (0..16u8).map(|i| i.wrapping_mul(13).wrapping_add(seed)).collect()
}

fn pair(seed: u8) -> (Context, Context) {
    let mut encoder = Context::new(Mode::Encode);
    let mut decoder = Context::new(Mode::Decode);
    encoder.init_state(&key(seed), &iv(seed)).unwrap();
    decoder.init_state(&key(seed), &iv(seed)).unwrap();
    (encoder, decoder)
}

fn noise(len: usize, seed: u32) -> Vec<u8> {
    let mut state = seed | 1;
    (0..len)
        .map(|_| {
            state ^= state << 13;
            state ^= state >> 17;
            state ^= state << 5;
            (state >> 8) as u8
        })
        .collect()
}

#[test]
fn hello_world_round_trip() {
    let (mut a, mut b) = pair(1);
    let message = b"hello world";
    let sealed = process(&mut a, message, message.len() as i32);
    assert!(!sealed.is_empty());
    assert_ne!(&sealed[..], &message[..]);
    let opened = process(&mut b, &sealed, sealed.len() as i32);
    assert_eq!(&opened[..], &message[..]);
}

#[test]
fn last_byte_flipped_gives_nothing() {
    let (mut a, mut b) = pair(1);
    let message = b"hello world";
    let mut sealed = process(&mut a, message, message.len() as i32);
    let last = sealed.len() - 1;
    sealed[last] ^= 0xff;
    let opened = process(&mut b, &sealed, sealed.len() as i32);
    assert!(opened.is_empty());
}

#[test]
fn any_flipped_byte_gives_nothing() {
    let message = b"the quick brown fox jumps over the lazy dog";
    let (mut a, _) = pair(9);
    let sealed = process(&mut a, message, message.len() as i32);
    for position in 0..sealed.len() {
        let (_, mut b) = pair(9);
        let mut corrupt = sealed.clone();
        corrupt[position] ^= 0x01;
        let opened = process(&mut b, &corrupt, corrupt.len() as i32);
        assert!(opened.is_empty(), "byte {} flipped", position);
    }
}

#[test]
fn altered_checksum_gives_nothing() {
    let message = b"payload";
    let (mut a, _) = pair(4);
    let sealed = process(&mut a, message, message.len() as i32);
    for position in sealed.len() - 8..sealed.len() {
        for mask in [0x01u8, 0x80, 0xff] {
            let (_, mut b) = pair(4);
            let mut corrupt = sealed.clone();
            corrupt[position] ^= mask;
            assert!(process(&mut b, &corrupt, 0).is_empty());
        }
    }
}

#[test]
fn independent_pairs_do_not_mix() {
    let (mut a1, mut b1) = pair(1);
    let (mut a2, mut b2) = pair(2);
    for round in 0..8u32 {
        let first = noise(100 + round as usize, round + 1);
        let second = noise(300 - round as usize, round + 100);
        let e1 = process(&mut a1, &first, first.len() as i32);
        let e2 = process(&mut a2, &second, second.len() as i32);
        assert_ne!(e1, e2);
        let d2 = process(&mut b2, &e2, e2.len() as i32);
        let d1 = process(&mut b1, &e1, e1.len() as i32);
        assert_eq!(d1, first);
        assert_eq!(d2, second);
    }
}

#[test]
fn frame_for_one_key_does_not_open_under_another() {
    let (mut a1, _) = pair(1);
    let (_, mut b2) = pair(2);
    let sealed = process(&mut a1, b"hello world", 11);
    assert!(process(&mut b2, &sealed, 0).is_empty());
}

#[test]
fn round_trip_in_lockstep() {
    let (mut a, mut b) = pair(3);
    let messages: Vec<Vec<u8>> = vec![
        Vec::new(),
        vec![0u8],
        b"hello world".to_vec(),
        vec![0x55u8; 70_000],
        noise(5_000, 77),
        noise(66_000, 78),
    ];
    for (round, message) in messages.iter().enumerate() {
        let sealed = process(&mut a, message, message.len() as i32);
        assert!(sealed.len() > 8);
        let opened = process(&mut b, &sealed, sealed.len() as i32);
        assert_eq!(&opened, message);
        assert_eq!(a.counter(), round as u64 + 1);
        assert_eq!(b.counter(), round as u64 + 1);
    }
}

#[test]
fn same_message_twice_gives_different_frames() {
    let (mut a, _) = pair(3);
    let first = process(&mut a, b"hello world", 11);
    let second = process(&mut a, b"hello world", 11);
    assert_eq!(first.len(), second.len());
    assert_ne!(first, second);
}

#[test]
fn decoder_out_of_step_gives_nothing() {
    let (mut a, mut b) = pair(3);
    let _skipped = process(&mut a, b"first", 5);
    let second = process(&mut a, b"second", 6);
    assert!(process(&mut b, &second, 0).is_empty());
}

#[test]
fn undersized_prealloc_gives_nothing() {
    let message = noise(1_000, 5);
    let (mut a, mut b) = pair(6);
    b.set_prealloc_size(message.len() - 1);
    let sealed = process(&mut a, &message, message.len() as i32);
    assert!(process(&mut b, &sealed, 0).is_empty());
}

#[test]
fn exact_prealloc_is_enough() {
    let message = noise(1_000, 5);
    let (mut a, mut b) = pair(6);
    b.set_prealloc_size(message.len());
    let sealed = process(&mut a, &message, message.len() as i32);
    assert_eq!(process(&mut b, &sealed, 0), message);
}

#[test]
fn debug_flag_does_not_change_results() {
    let (mut a, mut b) = pair(8);
    let (mut c, mut d) = pair(8);
    c.set_debug(true);
    d.set_debug(true);
    let message = b"hello world";
    let plain = process(&mut a, message, 11);
    let traced = process(&mut c, message, 11);
    assert_eq!(process(&mut b, &traced, 0), message.to_vec());
    assert_eq!(process(&mut d, &plain, 0), message.to_vec());
}

#[test]
fn encoding_before_initialization_gives_nothing() {
    let mut a = Context::new(Mode::Encode);
    assert!(process(&mut a, b"hello world", 11).is_empty());
    assert_eq!(a.counter(), 0);
    assert!(!a.is_initialized());
}

#[test]
fn decoding_before_initialization_gives_nothing() {
    let (mut a, _) = pair(1);
    let sealed = process(&mut a, b"hello world", 11);
    let mut b = Context::new(Mode::Decode);
    assert!(process(&mut b, &sealed, 0).is_empty());
    assert_eq!(b.counter(), 0);
}

#[test]
fn encoding_with_negative_size_gives_nothing() {
    let (mut a, _) = pair(1);
    assert!(process(&mut a, b"hello world", -1).is_empty());
    assert_eq!(a.counter(), 0);
}

#[test]
fn decoding_a_short_frame_gives_nothing() {
    let (_, mut b) = pair(1);
    assert!(process(&mut b, &[1, 2, 3], 3).is_empty());
    assert_eq!(b.counter(), 1);
    let (_, mut c) = pair(1);
    assert!(process(&mut c, &[], 0).is_empty());
}
