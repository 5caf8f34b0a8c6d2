use vole_arc::circuit::{
    bytes_bits, credential_domain_bytes, signed_credential_domain_bytes, tag_domain_bytes, credential_message, credential_target, derive_tag, gf16_bits, less_than_carries,
    pack_gf16, pi_rho_index, presentation_scope, signed_credential_message, tag_message,
    IssueCircuit, PresentationCircuit, PresentationSecrets, KECCAK_CHECKPOINT_BITS,
    PRESENTATION_NONCE_BITS, SALT_BYTES,
};
use vole_arc::keccak::{keccak_f, shake256, RATE_BYTES};
use sha3::digest::{ExtendableOutput, Update, XofReader};
use vole_arc::{ArcParams, Mayo1, Mayo2};

#[test]
fn subtraction_carry_characterizes_strict_range() {
    for limit in [1u32, 2, 3, 255, 256, u32::MAX] {
        for value in [
            0,
            limit.saturating_sub(1),
            limit,
            limit.saturating_add(1),
            u32::MAX,
        ] {
            let final_carry = *less_than_carries(value, limit)
                .last()
                .expect("32-bit addition has a carry");
            assert_eq!(final_carry, value >= limit, "{value} < {limit}");
        }
    }
}

#[test]
fn limit_is_not_part_of_tag_scope() {
    let issuer = [1u8; 32];
    let credential = [2u8; 32];
    let context = [3u8; 32];
    let scope = presentation_scope(&issuer, &credential, &context);
    let secret = [4u8; 32];
    assert_eq!(
        derive_tag(&secret, &scope, 0),
        derive_tag(&secret, &scope, 0)
    );
    assert_ne!(
        derive_tag(&secret, &scope, 0),
        derive_tag(&secret, &scope, 1)
    );
}

#[test]
fn signed_wrapper_fits_widest_supported_hash_output() {
    let commitment = vec![0u8; Mayo1::m()];
    let salt = [0u8; SALT_BYTES];
    assert!(signed_credential_message::<Mayo1>(&commitment, &salt).len() < RATE_BYTES);
}

#[test]
fn carry_chain_has_one_bit_per_nonce_bit() {
    let carries = less_than_carries(5, 7);
    assert_eq!(carries.len(), PRESENTATION_NONCE_BITS);
    assert_eq!(*carries.last().unwrap(), false);
    assert_eq!(*less_than_carries(7, 7).last().unwrap(), true);
    assert_eq!(*less_than_carries(0, u32::MAX).last().unwrap(), false);
}

#[test]
fn tags_differ_across_scopes_and_secrets() {
    let scope_a = presentation_scope(&[1u8; 32], &[2u8; 32], &[3u8; 32]);
    let scope_b = presentation_scope(&[1u8; 32], &[2u8; 32], &[4u8; 32]);
    assert_ne!(scope_a, scope_b);
    assert_ne!(derive_tag(&[9u8; 32], &scope_a, 0), derive_tag(&[9u8; 32], &scope_b, 0));
    assert_ne!(derive_tag(&[9u8; 32], &scope_a, 0), derive_tag(&[8u8; 32], &scope_a, 0));
}

#[test]
fn derive_tag_is_shake256_of_the_tag_message() {
    let scope = [7u8; 32];
    let secret = [5u8; 32];
    let message = tag_message(&secret, &scope, 3);
    assert_eq!(message.len(), 15 + 32 + 32 + 4);
    assert_eq!(&message[..15], b"VOLE-ARC/tag/v1");
    assert_eq!(&message[79..], &3u32.to_le_bytes());
    assert_eq!(derive_tag(&secret, &scope, 3).to_vec(), shake256(&message, 32));
}

#[test]
fn credential_message_layout() {
    let message = credential_message(&[1u8; 32], &[2u8; 32], &[3u8; 32]);
    assert_eq!(&message[..22], b"VOLE-ARC/credential/v1");
    assert_eq!(&message[22..54], &[1u8; 32]);
    assert_eq!(&message[54..86], &[2u8; 32]);
    assert_eq!(&message[86..], &[3u8; 32]);
}

#[test]
fn credential_target_is_low_nibble_first() {
    let target = credential_target::<Mayo2>(&[1u8; 32], &[2u8; 32], &[3u8; 32]);
    let message = credential_message(&[1u8; 32], &[2u8; 32], &[3u8; 32]);
    let output = shake256(&message, Mayo2::m().div_ceil(2));
    assert_eq!(target.len(), Mayo2::m());
    for (index, value) in target.iter().enumerate() {
        assert_eq!(*value, (output[index / 2] >> (4 * (index % 2))) & 0x0f);
    }
    let odd = credential_target::<Mayo1>(&[1u8; 32], &[2u8; 32], &[3u8; 32]);
    assert_eq!(odd.len(), 78);
    assert!(odd.iter().all(|value| *value < 16));
}

#[test]
fn pack_gf16_packs_low_nibble_first() {
    assert_eq!(pack_gf16(&[1, 2, 3]), vec![0x21, 0x03]);
    assert_eq!(pack_gf16(&[]), Vec::<u8>::new());
    assert_eq!(pack_gf16(&[0xf, 0xe]), vec![0xef]);
}

#[test]
fn bit_expansions_are_least_significant_first() {
    assert_eq!(
        bytes_bits(&[0b0000_0101]),
        vec![true, false, true, false, false, false, false, false]
    );
    assert_eq!(gf16_bits(&[0b1010]), vec![false, true, false, true]);
}

#[test]
fn pi_rho_index_gathers_rotated_source_bits() {
    let index = pi_rho_index();
    assert_eq!(index[0], 0);
    assert_eq!(index[63], 63);
    // Target lane (1, 0) comes from lane (1, 1), rotated by 44.
    assert_eq!(index[64], 64 * 6 + 20);
    let mut seen = vec![false; 1600];
    for source in index {
        assert!(!seen[source]);
        seen[source] = true;
    }
}

#[test]
fn keccak_f_of_zero_state_matches_known_first_lane() {
    let state = keccak_f([0u64; 25]);
    assert_eq!(state[0], 0xF125_8F79_40E1_DDE7);
}

#[test]
fn issue_witness_has_secret_nonce_and_checkpoint_bits() {
    let circuit = IssueCircuit::<Mayo1> {
        credential_scope: [6u8; 32],
        target: vec![0u8; 78],
        params: std::marker::PhantomData,
    };
    let witness = circuit.witness(&[0xffu8; 32], &[0u8; 32]);
    assert_eq!(witness.len(), 512 + KECCAK_CHECKPOINT_BITS);
    assert!(witness[..256].iter().all(|bit| *bit));
    assert!(witness[256..512].iter().all(|bit| !*bit));
}

#[test]
fn presentation_witness_layout() {
    let circuit = PresentationCircuit::<Mayo2> {
        credential_scope: [1u8; 32],
        presentation_scope: [2u8; 32],
        presentation_limit: 3,
        tag: [0u8; 32],
        params: std::marker::PhantomData,
    };
    let signature = vec![0xfu8; Mayo2::kn()];
    let secrets = PresentationSecrets {
        signature: &signature,
        secret: &[3u8; 32],
        hiding_nonce: &[4u8; 32],
        salt: &[5u8; 32],
        presentation_nonce: 2,
    };
    let witness = circuit.witness(&secrets);
    let signature_bits = 4 * Mayo2::kn();
    assert_eq!(
        witness.len(),
        signature_bits + 3 * 256 + 2 * PRESENTATION_NONCE_BITS + 3 * KECCAK_CHECKPOINT_BITS
    );
    assert!(witness[..signature_bits].iter().all(|bit| *bit));
    let nonce_start = signature_bits + 3 * 256;
    assert_eq!(witness[nonce_start], false);
    assert_eq!(witness[nonce_start + 1], true);
    let carries_start = nonce_start + PRESENTATION_NONCE_BITS;
    assert_eq!(witness[carries_start + PRESENTATION_NONCE_BITS - 1], false);
}

fn sha3_32(parts: &[&[u8]]) -> [u8; 32] {
    let mut hash = sha3::Shake256::default();
    for part in parts {
        hash.update(part);
    }
    let mut output = [0u8; 32];
    hash.finalize_xof().read(&mut output);
    output
}

#[test]
fn scopes_are_sha3_digests_of_their_parts() {
    let issuer = [0x11u8; 32];
    let credential = [0x22u8; 32];
    let context = [0x33u8; 32];
    assert_eq!(
        vole_arc::circuit::credential_scope(&issuer, &credential),
        sha3_32(&[b"VOLE-ARC/credential-scope/v1", &issuer, &credential])
    );
    assert_eq!(
        presentation_scope(&issuer, &credential, &context),
        sha3_32(&[b"VOLE-ARC/presentation-scope/v1", &issuer, &credential, &context])
    );
    assert_eq!(
        vole_arc::circuit::hash_scope(b"label", &[issuer]),
        sha3_32(&[b"label", &issuer])
    );
}

#[test]
fn mayo_key_hash_binds_dimensions_and_forms() {
    let forms = vec![vec![1u8, 2, 3], vec![4u8]];
    let mut expected_input = Vec::new();
    for dimension in [86u64, 78, 8, 10] {
        expected_input.extend_from_slice(&dimension.to_le_bytes());
    }
    expected_input.extend_from_slice(&[1, 2, 3, 4]);
    assert_eq!(
        vole_arc::circuit::mayo_key_hash::<Mayo1>(&forms),
        sha3_32(&[b"VOLE-ARC/mayo-public-key/v1", &expected_input])
    );
    assert_ne!(
        vole_arc::circuit::mayo_key_hash::<Mayo1>(&forms),
        vole_arc::circuit::mayo_key_hash::<Mayo2>(&forms)
    );
}

#[test]
fn circuit_domain_labels_are_exact() {
    assert_eq!(credential_domain_bytes(), b"VOLE-ARC/credential/v1");
    assert_eq!(signed_credential_domain_bytes(), b"VOLE-ARC/signed/v1");
    assert_eq!(tag_domain_bytes(), b"VOLE-ARC/tag/v1");
}

