use vole_arc::wire::{header, mutate_valid, pack_nibbles, put_bytes, Decoder, WireError};

#[test]
fn header_errors_distinguish_type_suite_and_reserved_bytes() {
    let mut encoded = Vec::new();
    header(&mut encoded, 7, 2);

    assert!(Decoder::new(&encoded, 7, 2).is_ok());
    assert!(matches!(
        Decoder::new(&encoded, 6, 2),
        Err(WireError::WrongArtifact)
    ));
    assert!(matches!(
        Decoder::new(&encoded, 7, 1),
        Err(WireError::WrongParameterSet)
    ));

    encoded[7] = 1;
    assert!(matches!(
        Decoder::new(&encoded, 7, 2),
        Err(WireError::InvalidEncoding)
    ));
}

#[test]
fn header_rejects_bad_magic_and_version() {
    let mut encoded = Vec::new();
    header(&mut encoded, 3, 1);
    let mut wrong_magic = encoded.clone();
    wrong_magic[0] = b'X';
    assert!(matches!(
        Decoder::new(&wrong_magic, 3, 1),
        Err(WireError::InvalidEncoding)
    ));
    let mut wrong_version = encoded.clone();
    wrong_version[4] = 2;
    assert!(matches!(
        Decoder::new(&wrong_version, 3, 1),
        Err(WireError::UnsupportedVersion)
    ));
    assert!(matches!(
        Decoder::new(&encoded[..8], 3, 1),
        Err(WireError::InvalidEncoding)
    ));
    assert_eq!(&encoded[..5], b"VARC\x01");
}

#[test]
fn oversized_input_is_too_large() {
    let big = vec![0u8; vole_arc::MAX_WIRE_BYTES + 1];
    assert!(matches!(Decoder::new(&big, 1, 1), Err(WireError::TooLarge)));
}

#[test]
fn framed_bytes_nibbles_and_integers_round_trip() {
    let mut encoded = Vec::new();
    header(&mut encoded, 1, 1);
    put_bytes(&mut encoded, b"hello");
    encoded.extend_from_slice(&pack_nibbles(&[1, 2, 3]));
    encoded.extend_from_slice(&0xdead_beefu32.to_le_bytes());
    encoded.push(9);
    let mut decoder = Decoder::new(&encoded, 1, 1).unwrap();
    assert_eq!(decoder.bytes().unwrap(), b"hello");
    assert_eq!(decoder.nibbles(3).unwrap(), vec![1, 2, 3]);
    assert_eq!(decoder.u32().unwrap(), 0xdead_beef);
    assert_eq!(decoder.u8().unwrap(), 9);
    assert!(decoder.finish().is_ok());
}

#[test]
fn noncanonical_odd_nibble_and_trailing_data_are_rejected() {
    let mut encoded = Vec::new();
    header(&mut encoded, 1, 1);
    encoded.push(0x31);
    encoded.push(0x42);
    let mut decoder = Decoder::new(&encoded, 1, 1).unwrap();
    assert!(matches!(decoder.nibbles(3), Err(WireError::InvalidEncoding)));

    let mut decoder = Decoder::new(&encoded, 1, 1).unwrap();
    assert_eq!(decoder.u8().unwrap(), 0x31);
    assert!(matches!(decoder.finish(), Err(WireError::InvalidEncoding)));

    let mut decoder = Decoder::new(&encoded, 1, 1).unwrap();
    assert!(matches!(decoder.bytes(), Err(WireError::InvalidEncoding)));
}

#[test]
fn wire_error_messages() {
    assert_eq!(
        WireError::InvalidEncoding.message(),
        "invalid canonical VOLE-ARC encoding"
    );
    assert_eq!(WireError::TooLarge.message(), "VOLE-ARC artifact exceeds the configured limit");
}

#[test]
fn mutate_valid_modes() {
    let base = [10u8, 20, 30, 40];
    assert_eq!(mutate_valid(&base, &[]), base.to_vec());
    // Mode 2 appends the input.
    assert_eq!(mutate_valid(&base, &[2, 7]), vec![10, 20, 30, 40, 2, 7]);
    // Mode 1 truncates to selector % len: selector = 1 + 256 * 3 = 769, 769 % 4 = 1.
    assert_eq!(mutate_valid(&base, &[1, 3]), vec![10]);
    // Mode 0 XORs `value | 1` from offset selector % len: selector = 4, offset 0.
    assert_eq!(mutate_valid(&base, &[4]), vec![10 ^ 5, 20, 30, 40]);
    // Mode 3 wraps around: selector = 3 + 256, offset 3.
    assert_eq!(mutate_valid(&base, &[3, 1]), vec![10 ^ 1, 20, 30, 40 ^ 3]);
}
