use native_crypto::context::{Context, InitError, Mode, DEFAULT_PREALLOC_SIZE};

#[test]
fn new_context_has_defaults() {
    let encoder = Context::new(Mode::Encode);
    assert_eq!(encoder.mode(), Mode::Encode);
    assert!(!encoder.debug());
    assert_eq!(encoder.counter(), 0);
    assert_eq!(encoder.prealloc_size(), 2 * 1024 * 1024);
    assert_eq!(DEFAULT_PREALLOC_SIZE, 2_097_152);
    assert!(!encoder.is_initialized());
    let decoder = Context::new(Mode::Decode);
    assert_eq!(decoder.mode(), Mode::Decode);
}

#[test]
fn init_state_takes_key_and_iv() {
    let mut context = Context::new(Mode::Encode);
    assert_eq!(context.init_state(&[7u8; 32], &[9u8; 16]), Ok(()));
    assert!(context.is_initialized());
    assert_eq!(context.counter(), 0);
    assert_eq!(context.mode(), Mode::Encode);
}

#[test]
fn init_state_refuses_a_key_of_wrong_length() {
    let mut context = Context::new(Mode::Decode);
    assert_eq!(context.init_state(&[7u8; 31], &[9u8; 16]), Err(InitError::KeyLength));
    assert_eq!(context.init_state(&[7u8; 33], &[9u8; 16]), Err(InitError::KeyLength));
    assert_eq!(context.init_state(&[], &[]), Err(InitError::KeyLength));
    assert!(!context.is_initialized());
}

#[test]
fn init_state_refuses_an_iv_of_wrong_length() {
    let mut context = Context::new(Mode::Decode);
    assert_eq!(context.init_state(&[7u8; 32], &[9u8; 15]), Err(InitError::IvLength));
    assert_eq!(context.init_state(&[7u8; 32], &[9u8; 17]), Err(InitError::IvLength));
    assert!(!context.is_initialized());
}

#[test]
fn failed_init_keeps_the_earlier_key() {
    let mut a = Context::new(Mode::Encode);
    let mut b = Context::new(Mode::Encode);
    a.init_state(&[1u8; 32], &[2u8; 16]).unwrap();
    b.init_state(&[1u8; 32], &[2u8; 16]).unwrap();
    assert!(a.init_state(&[3u8; 5], &[2u8; 16]).is_err());
    assert!(a.is_initialized());
    assert_eq!(a.process(b"same"), b.process(b"same"));
}

#[test]
fn last_setting_stands() {
    let mut context = Context::new(Mode::Decode);
    context.set_debug(true);
    context.set_debug(true);
    assert!(context.debug());
    context.set_debug(false);
    assert!(!context.debug());
    context.set_prealloc_size(10);
    context.set_prealloc_size(4096);
    context.set_prealloc_size(4096);
    assert_eq!(context.prealloc_size(), 4096);
    context.set_prealloc_size(0);
    assert_eq!(context.prealloc_size(), 0);
    assert_eq!(context.counter(), 0);
    assert_eq!(context.mode(), Mode::Decode);
}
