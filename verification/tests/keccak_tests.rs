use sha3::digest::{ExtendableOutput, Update, XofReader};
use vole_arc::keccak::{absorb_block, pad_single_block, shake256, state_bit, RATE_BYTES};

#[test]
fn matches_sha3_reference() {
    for (message_len, output_len) in [
        (0usize, 32usize),
        (17, 64),
        (135, 137),
        (136, 32),
        (1000, 39),
    ] {
        let message: Vec<u8> = (0..message_len)
            .map(|i| {
                u8::try_from((i * 7 + 3) % 256).expect("the test pattern is reduced modulo 256")
            })
            .collect();
        let mut hash = sha3::Shake256::default();
        hash.update(&message);
        let mut expected = vec![0u8; output_len];
        hash.finalize_xof().read(&mut expected);
        assert_eq!(shake256(&message, output_len), expected);
    }
}

#[test]
fn padding_sets_domain_and_final_bits() {
    let block = pad_single_block(b"abc");
    assert_eq!(&block[..3], b"abc");
    assert_eq!(block[3], 0x1f);
    assert_eq!(block[RATE_BYTES - 1], 0x80);
    let full = pad_single_block(&[0u8; RATE_BYTES - 1]);
    assert_eq!(full[RATE_BYTES - 1], 0x9f);
}

#[test]
fn absorb_and_state_bits_use_little_endian_lanes() {
    let mut state = [0u64; 25];
    let mut block = [0u8; RATE_BYTES];
    block[0] = 0x01;
    block[9] = 0x80;
    absorb_block(&mut state, &block);
    assert_eq!(state[0], 1);
    assert_eq!(state[1], 0x8000);
    assert!(state_bit(&state, 0));
    assert!(!state_bit(&state, 1));
    assert!(state_bit(&state, 64 + 15));
}

#[test]
fn shake256_output_length_is_exact() {
    assert!(shake256(b"", 0).is_empty());
    assert_eq!(shake256(b"x", 300).len(), 300);
    assert_eq!(shake256(b"x", 300)[..32], shake256(b"x", 32)[..]);
}
