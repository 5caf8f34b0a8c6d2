//! VOLE-ARC relation inputs and native witness generation.
//!
//! A presentation proves knowledge of a signer-authenticated hidden
//! credential secret, a deterministic tag for the public presentation scope
//! and hidden counter, and the bound `counter < presentation_limit`.

use std::marker::PhantomData;
use vstd::prelude::*;
use vstd::string::StringSliceAdditionalSpecFns;
use vstd::bytes::{spec_u32_to_le_bytes, spec_u64_to_le_bytes, u32_to_le_bytes};
use crate::digest::{sha3_shake256_32, shake256_32};
use crate::keccak::{self, RATE_BYTES, RHO, rotl, spec_shake256};
use crate::markers::ArcParams;
use crate::wire::{extend_bytes, packed_nibbles, all_nibbles, u64_le_bytes, unpacked_nibbles, lemma_nibbles_roundtrip};

verus! {

/// Length of the hidden credential secret.
pub const SECRET_BYTES: usize = 32;

/// Length of the commitment hiding nonce.
pub const HIDING_NONCE_BYTES: usize = 32;

/// Length of the signer salt.
pub const SALT_BYTES: usize = 32;

/// Width of the hidden presentation nonce.
pub const PRESENTATION_NONCE_BITS: usize = 32;

/// Witness bits for the six committed Keccak checkpoints.
pub const KECCAK_CHECKPOINT_BITS: usize = 9600;

/// Domain label of the credential commitment hash.
pub open spec fn credential_domain() -> Seq<u8> {
    "VOLE-ARC/credential/v1".spec_bytes()
}

/// Domain label of the signed credential hash.
pub open spec fn signed_credential_domain() -> Seq<u8> {
    "VOLE-ARC/signed/v1".spec_bytes()
}

/// Domain label of the presentation tag hash.
pub open spec fn tag_domain() -> Seq<u8> {
    "VOLE-ARC/tag/v1".spec_bytes()
}

/// Domain label of the credential scope.
pub open spec fn credential_scope_domain() -> Seq<u8> {
    "VOLE-ARC/credential-scope/v1".spec_bytes()
}

/// Domain label of the presentation scope.
pub open spec fn presentation_scope_domain() -> Seq<u8> {
    "VOLE-ARC/presentation-scope/v1".spec_bytes()
}

/// The credential commitment label, as the circuit builders hash it.
pub fn credential_domain_bytes() -> (label: &'static [u8])
    ensures
        label@ == credential_domain(),
{
    "VOLE-ARC/credential/v1".as_bytes()
}

/// The signed credential label, as the circuit builders hash it.
pub fn signed_credential_domain_bytes() -> (label: &'static [u8])
    ensures
        label@ == signed_credential_domain(),
{
    "VOLE-ARC/signed/v1".as_bytes()
}

/// The presentation tag label, as the circuit builders hash it.
pub fn tag_domain_bytes() -> (label: &'static [u8])
    ensures
        label@ == tag_domain(),
{
    "VOLE-ARC/tag/v1".as_bytes()
}

/// The byte lengths of the in-circuit domain labels.
pub proof fn lemma_domain_lengths()
    ensures
        credential_domain().len() == 22,
        signed_credential_domain().len() == 18,
        tag_domain().len() == 15,
{
    reveal_strlit("VOLE-ARC/credential/v1");
    reveal_strlit("VOLE-ARC/signed/v1");
    reveal_strlit("VOLE-ARC/tag/v1");
    broadcast use vstd::string::is_ascii_spec_bytes;
    assert(vstd::string::is_ascii("VOLE-ARC/credential/v1"));
    assert(vstd::string::is_ascii("VOLE-ARC/signed/v1"));
    assert(vstd::string::is_ascii("VOLE-ARC/tag/v1"));
}

/// The credential scope: issuer and credential contexts hashed together.
pub open spec fn spec_credential_scope(issuer_context: Seq<u8>, credential_context: Seq<u8>) -> Seq<u8> {
    sha3_shake256_32(credential_scope_domain() + issuer_context + credential_context)
}

/// The presentation scope: issuer, credential, and presentation contexts.
pub open spec fn spec_presentation_scope(
    issuer_context: Seq<u8>,
    credential_context: Seq<u8>,
    presentation_context: Seq<u8>,
) -> Seq<u8> {
    sha3_shake256_32(
        presentation_scope_domain() + issuer_context + credential_context + presentation_context,
    )
}

/// The 32-byte parts of a scope, concatenated.
pub open spec fn concat_parts(parts: Seq<[u8; 32]>) -> Seq<u8>
    decreases parts.len(),
{
    if parts.len() == 0 {
        Seq::empty()
    } else {
        concat_parts(parts.drop_last()) + parts.last()@
    }
}

/// Hash a domain label and 32-byte parts into a scope.
pub fn hash_scope(domain: &[u8], parts: &[[u8; 32]]) -> (scope: [u8; 32])
    ensures
        scope@ == sha3_shake256_32(domain@ + concat_parts(parts@)),
{
    let mut message: Vec<u8> = Vec::new();
    extend_bytes(&mut message, domain);
    for index in 0..parts.len()
        invariant
            message@ == domain@ + concat_parts(parts@.take(index as int)),
    {
        extend_bytes(&mut message, vstd::array::array_as_slice(&parts[index]));
        assert(parts@.take(index + 1).drop_last() =~= parts@.take(index as int));
    }
    assert(parts@.take(parts@.len() as int) =~= parts@);
    shake256_32(message.as_slice())
}

/// Hash the issuer and credential contexts into the credential scope.
pub fn credential_scope(issuer_context: &[u8; 32], credential_context: &[u8; 32]) -> (scope: [u8; 32])
    ensures
        scope@ == spec_credential_scope(issuer_context@, credential_context@),
{
    let parts = [*issuer_context, *credential_context];
    proof {
        let p = parts@;
        assert(p.drop_last().drop_last() =~= Seq::<[u8; 32]>::empty());
        assert(concat_parts(p.drop_last().drop_last()) == Seq::<u8>::empty());
        assert(p.drop_last().last() == *issuer_context && p.last() == *credential_context);
        assert(concat_parts(p.drop_last()) =~= issuer_context@);
        assert(concat_parts(p) =~= issuer_context@ + credential_context@);
        assert(credential_scope_domain() + issuer_context@ + credential_context@ =~= credential_scope_domain() + concat_parts(p));
    }
    hash_scope("VOLE-ARC/credential-scope/v1".as_bytes(), vstd::array::array_as_slice(&parts))
}

/// Hash the issuer, credential, and presentation contexts into the scope
/// under which tags are stored.
pub fn presentation_scope(
    issuer_context: &[u8; 32],
    credential_context: &[u8; 32],
    presentation_context: &[u8; 32],
) -> (scope: [u8; 32])
    ensures
        scope@ == spec_presentation_scope(
            issuer_context@,
            credential_context@,
            presentation_context@,
        ),
{
    let parts = [*issuer_context, *credential_context, *presentation_context];
    proof {
        let p = parts@;
        assert(p.drop_last().drop_last().drop_last() =~= Seq::<[u8; 32]>::empty());
        assert(concat_parts(p.drop_last().drop_last().drop_last()) == Seq::<u8>::empty());
        assert(p.drop_last().drop_last().last() == *issuer_context);
        assert(p.drop_last().last() == *credential_context && p.last() == *presentation_context);
        assert(concat_parts(p.drop_last().drop_last()) =~= issuer_context@);
        assert(concat_parts(p.drop_last()) =~= issuer_context@ + credential_context@);
        assert(concat_parts(p) =~= issuer_context@ + credential_context@ + presentation_context@);
        assert(presentation_scope_domain() + issuer_context@ + credential_context@ + presentation_context@
            =~= presentation_scope_domain() + concat_parts(p));
    }
    hash_scope("VOLE-ARC/presentation-scope/v1".as_bytes(), vstd::array::array_as_slice(&parts))
}

/// The domain label of the MAYO public-key digest.
pub open spec fn mayo_key_domain() -> Seq<u8> {
    "VOLE-ARC/mayo-public-key/v1".spec_bytes()
}

/// The MAYO public-key digest input: the dimensions `n`, `m`, `o`, `k` as
/// little-endian `u64`s, then every quadratic form's GF(16) entries, one
/// element per byte, in the order the MAYO implementation visits them.
pub open spec fn mayo_key_message(dimensions: (u64, u64, u64, u64), forms: Seq<Seq<u8>>) -> Seq<u8> {
    mayo_key_domain() + spec_u64_to_le_bytes(dimensions.0) + spec_u64_to_le_bytes(dimensions.1)
        + spec_u64_to_le_bytes(dimensions.2) + spec_u64_to_le_bytes(dimensions.3) + forms.flatten()
}

/// The byte views of the forms' entries.
pub open spec fn form_views(forms: Seq<Vec<u8>>) -> Seq<Seq<u8>> {
    Seq::new(forms.len(), |i: int| forms[i]@)
}

/// Digest a MAYO public key from the entries of its whipped quadratic
/// forms.
pub fn mayo_key_hash<P: ArcParams>(forms: &[Vec<u8>]) -> (digest: [u8; 32])
    ensures
        digest@ == sha3_shake256_32(mayo_key_message(P::spec_dimensions(), form_views(forms@))),
{
    let (n, m, o, k) = P::dimensions();
    let mut message: Vec<u8> = Vec::new();
    extend_bytes(&mut message, "VOLE-ARC/mayo-public-key/v1".as_bytes());
    let n_bytes = u64_le_bytes(n);
    extend_bytes(&mut message, vstd::array::array_as_slice(&n_bytes));
    let m_bytes = u64_le_bytes(m);
    extend_bytes(&mut message, vstd::array::array_as_slice(&m_bytes));
    let o_bytes = u64_le_bytes(o);
    extend_bytes(&mut message, vstd::array::array_as_slice(&o_bytes));
    let k_bytes = u64_le_bytes(k);
    extend_bytes(&mut message, vstd::array::array_as_slice(&k_bytes));
    let ghost prefix = message@;
    for index in 0..forms.len()
        invariant
            message@ == prefix + form_views(forms@.take(index as int)).flatten(),
    {
        extend_bytes(&mut message, forms[index].as_slice());
        proof {
            let before = form_views(forms@.take(index as int));
            let after = form_views(forms@.take(index + 1));
            assert(after =~= before.push(forms@[index as int]@));
            before.lemma_flatten_push(forms@[index as int]@);
        }
    }
    assert(forms@.take(forms@.len() as int) =~= forms@);
    shake256_32(message.as_slice())
}

/// The credential-commitment hash input.
pub open spec fn spec_credential_message(scope: Seq<u8>, secret: Seq<u8>, hiding_nonce: Seq<u8>) -> Seq<u8> {
    credential_domain() + scope + secret + hiding_nonce
}

/// Assemble the credential-commitment hash input.
pub fn credential_message(
    scope: &[u8; 32],
    secret: &[u8; SECRET_BYTES],
    hiding_nonce: &[u8; HIDING_NONCE_BYTES],
) -> (message: Vec<u8>)
    ensures
        message@ == spec_credential_message(scope@, secret@, hiding_nonce@),
        message@.len() < RATE_BYTES,
{
    proof {
        lemma_domain_lengths();
    }
    let mut message: Vec<u8> = Vec::new();
    extend_bytes(&mut message, credential_domain_bytes());
    extend_bytes(&mut message, vstd::array::array_as_slice(scope));
    extend_bytes(&mut message, vstd::array::array_as_slice(secret));
    extend_bytes(&mut message, vstd::array::array_as_slice(hiding_nonce));
    message
}

/// The first `count` GF(16) elements of a byte string, low nibble first.
pub open spec fn nibbles_of(bytes: Seq<u8>, count: nat) -> Seq<u8> {
    Seq::new(count, |i: int| (bytes[i / 2] >> ((4 * (i % 2)) as u8)) & 0x0f)
}

/// The first `count` nibbles of the SHAKE256 output of a message.
pub open spec fn hash_to_nibbles(message: Seq<u8>, count: nat) -> Seq<u8> {
    nibbles_of(spec_shake256(message, (count + 1) / 2), count)
}

fn nibbles_from_bytes(bytes: &Vec<u8>, count: usize) -> (values: Vec<u8>)
    requires
        bytes@.len() == (count + 1) / 2,
    ensures
        values@ == nibbles_of(bytes@, count as nat),
        all_nibbles(values@),
{
    let mut values: Vec<u8> = Vec::new();
    for index in 0..count
        invariant
            bytes@.len() == (count + 1) / 2,
            values@ == nibbles_of(bytes@, index as nat),
            all_nibbles(values@),
    {
        let shift = (4 * (index % 2)) as u8;
        let byte = bytes[index / 2];
        let value = (byte >> shift) & 0x0f;
        assert((byte >> shift) & 0x0f < 16) by (bit_vector);
        values.push(value);
        assert(values@ =~= nibbles_of(bytes@, (index + 1) as nat));
    }
    values
}

/// The `P::M`-nibble credential commitment.
pub fn credential_target<P: ArcParams>(
    scope: &[u8; 32],
    secret: &[u8; SECRET_BYTES],
    hiding_nonce: &[u8; HIDING_NONCE_BYTES],
) -> (commitment: Vec<u8>)
    ensures
        commitment@ == hash_to_nibbles(
            spec_credential_message(scope@, secret@, hiding_nonce@),
            P::spec_m(),
        ),
        commitment@.len() == P::spec_m(),
        all_nibbles(commitment@),
{
    let m = P::m();
    let mut message = credential_message(scope, secret, hiding_nonce);
    let mut output = keccak::shake256(message.as_slice(), m / 2 + m % 2);
    assert(spec_shake256(message@, (m + 1) as nat / 2).len() == (m + 1) / 2) by {
        lemma_shake256_len(message@, (m / 2 + m % 2) as nat);
    }
    let commitment = nibbles_from_bytes(&output, m);
    crate::secret::wipe_vec(&mut message);
    crate::secret::wipe_vec(&mut output);
    commitment
}

/// Squeezing `n` bytes yields `n` bytes.
pub proof fn lemma_squeeze_len(s: Seq<u64>, n: nat)
    ensures
        keccak::squeeze(s, n).len() == n,
    decreases n,
{
    if n > RATE_BYTES {
        lemma_squeeze_len(keccak::spec_keccak_f(s), (n - RATE_BYTES) as nat);
    }
}

/// SHAKE256 yields exactly the requested number of bytes.
pub proof fn lemma_shake256_len(message: Seq<u8>, n: nat)
    ensures
        spec_shake256(message, n).len() == n,
{
    lemma_squeeze_len(keccak::sponge_state(message), n);
}

/// Pack GF(16) elements two to a byte, low nibble first.
pub fn pack_gf16(values: &[u8]) -> (packed: Vec<u8>)
    ensures
        packed@ == packed_nibbles(values@),
{
    crate::wire::pack_nibbles(values)
}

/// The signed-credential hash input.
pub open spec fn spec_signed_credential_message(commitment: Seq<u8>, salt: Seq<u8>) -> Seq<u8> {
    signed_credential_domain() + packed_nibbles(commitment) + salt
}

/// Assemble the signed-credential hash input.
pub fn signed_credential_message<P: ArcParams>(commitment: &[u8], salt: &[u8; SALT_BYTES]) -> (message: Vec<u8>)
    requires
        commitment@.len() == P::spec_m(),
    ensures
        message@ == spec_signed_credential_message(commitment@, salt@),
        message@.len() < RATE_BYTES,
{
    proof {
        lemma_domain_lengths();
    }
    let m = P::m();
    let packed = pack_gf16(commitment);
    assert(packed@.len() == (m + 1) / 2);
    let mut message: Vec<u8> = Vec::new();
    extend_bytes(&mut message, signed_credential_domain_bytes());
    extend_bytes(&mut message, packed.as_slice());
    extend_bytes(&mut message, vstd::array::array_as_slice(salt));
    message
}

/// The `P::M`-nibble MAYO target authenticating a commitment and salt.
pub fn signed_credential_target<P: ArcParams>(commitment: &[u8], salt: &[u8; SALT_BYTES]) -> (target: Vec<u8>)
    requires
        commitment@.len() == P::spec_m(),
    ensures
        target@ == hash_to_nibbles(spec_signed_credential_message(commitment@, salt@), P::spec_m()),
        target@.len() == P::spec_m(),
        all_nibbles(target@),
{
    let m = P::m();
    let mut message = signed_credential_message::<P>(commitment, salt);
    let mut output = keccak::shake256(message.as_slice(), m / 2 + m % 2);
    proof {
        lemma_shake256_len(message@, (m / 2 + m % 2) as nat);
    }
    let target = nibbles_from_bytes(&output, m);
    crate::secret::wipe_vec(&mut message);
    crate::secret::wipe_vec(&mut output);
    target
}

/// The presentation-tag hash input.
pub open spec fn spec_tag_message(secret: Seq<u8>, scope: Seq<u8>, nonce: u32) -> Seq<u8> {
    tag_domain() + secret + scope + spec_u32_to_le_bytes(nonce)
}

/// Assemble the presentation-tag hash input.
pub fn tag_message(secret: &[u8; SECRET_BYTES], scope: &[u8; 32], nonce: u32) -> (message: Vec<u8>)
    ensures
        message@ == spec_tag_message(secret@, scope@, nonce),
        message@.len() < RATE_BYTES,
{
    proof {
        lemma_domain_lengths();
        vstd::bytes::lemma_auto_spec_u32_to_from_le_bytes();
    }
    let mut message: Vec<u8> = Vec::new();
    extend_bytes(&mut message, tag_domain_bytes());
    extend_bytes(&mut message, vstd::array::array_as_slice(secret));
    extend_bytes(&mut message, vstd::array::array_as_slice(scope));
    let counter = u32_to_le_bytes(nonce);
    extend_bytes(&mut message, counter.as_slice());
    message
}

/// The deterministic tag of a secret, scope, and nonce.
pub open spec fn spec_derive_tag(secret: Seq<u8>, scope: Seq<u8>, nonce: u32) -> Seq<u8> {
    spec_shake256(spec_tag_message(secret, scope, nonce), 32)
}

/// Derive the deterministic tag for one scoped use.
pub fn derive_tag(secret: &[u8; SECRET_BYTES], scope: &[u8; 32], nonce: u32) -> (tag: [u8; 32])
    ensures
        tag@ == spec_derive_tag(secret@, scope@, nonce),
{
    let mut message = tag_message(secret, scope, nonce);
    let output = keccak::shake256(message.as_slice(), 32);
    proof {
        lemma_shake256_len(message@, 32);
    }
    let mut tag = [0u8; 32];
    for index in 0..32
        invariant
            output@.len() == 32,
            forall|j: int| 0 <= j < index ==> tag@[j] == output@[j],
    {
        tag[index] = output[index];
    }
    assert(tag@ =~= output@);
    crate::secret::wipe_vec(&mut message);
    tag
}

/// Where the parts of a tag input sit: the label `VOLE-ARC/tag/v1` in
/// bytes 0..15, the 32-byte secret in bytes 15..47, the 32-byte scope in
/// bytes 47..79, and the nonce as four little-endian bytes in 79..83; the
/// tag is the first 32 bytes of SHAKE256 over that input.
pub proof fn lemma_tag_layout(secret: Seq<u8>, scope: Seq<u8>, nonce: u32)
    requires
        secret.len() == 32,
        scope.len() == 32,
    ensures
        spec_tag_message(secret, scope, nonce).len() == 83,
        spec_tag_message(secret, scope, nonce).subrange(0, 15) == "VOLE-ARC/tag/v1".spec_bytes(),
        spec_tag_message(secret, scope, nonce).subrange(15, 47) == secret,
        spec_tag_message(secret, scope, nonce).subrange(47, 79) == scope,
        spec_tag_message(secret, scope, nonce).subrange(79, 83) == spec_u32_to_le_bytes(nonce),
        forall|message: Seq<u8>|
            message.len() == 83 && message.subrange(0, 15) == "VOLE-ARC/tag/v1".spec_bytes()
                && message.subrange(15, 47) == secret && message.subrange(47, 79) == scope
                && message.subrange(79, 83) == spec_u32_to_le_bytes(nonce) ==> spec_derive_tag(
                secret,
                scope,
                nonce,
            ) == #[trigger] spec_shake256(message, 32),
{
    lemma_domain_lengths();
    vstd::bytes::lemma_auto_spec_u32_to_from_le_bytes();
    let m = spec_tag_message(secret, scope, nonce);
    assert(m.subrange(0, 15) =~= tag_domain());
    assert(m.subrange(15, 47) =~= secret);
    assert(m.subrange(47, 79) =~= scope);
    assert(m.subrange(79, 83) =~= spec_u32_to_le_bytes(nonce));
    assert forall|message: Seq<u8>|
        message.len() == 83 && message.subrange(0, 15) == "VOLE-ARC/tag/v1".spec_bytes()
            && message.subrange(15, 47) == secret && message.subrange(47, 79) == scope
            && message.subrange(79, 83) == spec_u32_to_le_bytes(nonce) implies spec_derive_tag(
            secret,
            scope,
            nonce,
        ) == #[trigger] spec_shake256(message, 32) by {
        assert forall|i: int| 0 <= i < 83 implies message[i] == m[i] by {
            if i < 15 {
                assert(message[i] == message.subrange(0, 15)[i]);
                assert(m[i] == m.subrange(0, 15)[i]);
            } else if i < 47 {
                assert(message[i] == message.subrange(15, 47)[i - 15]);
                assert(m[i] == m.subrange(15, 47)[i - 15]);
            } else if i < 79 {
                assert(message[i] == message.subrange(47, 79)[i - 47]);
                assert(m[i] == m.subrange(47, 79)[i - 47]);
            } else {
                assert(message[i] == message.subrange(79, 83)[i - 79]);
                assert(m[i] == m.subrange(79, 83)[i - 79]);
            }
        }
        assert(message =~= m);
    }
}

/// How many bytes `values` takes packed two nibbles to a byte.
pub open spec fn packed_len(values: Seq<u8>) -> int {
    ((values.len() + 1) / 2) as int
}

/// Where the parts of a signed-credential input sit: the label
/// `VOLE-ARC/signed/v1` in bytes 0..18, the commitment packed two nibbles
/// to a byte in the next `(m + 1) / 2` bytes, which unpack to the
/// commitment again, then the 32-byte salt.
pub proof fn lemma_signed_message_layout(commitment: Seq<u8>, salt: Seq<u8>)
    requires
        salt.len() == 32,
        all_nibbles(commitment),
    ensures
        spec_signed_credential_message(commitment, salt).len() == 18 + packed_len(commitment) + 32,
        spec_signed_credential_message(commitment, salt).subrange(0, 18)
            == "VOLE-ARC/signed/v1".spec_bytes(),
        spec_signed_credential_message(commitment, salt).subrange(18, 18 + packed_len(commitment))
            == packed_nibbles(commitment),
        unpacked_nibbles(
            spec_signed_credential_message(commitment, salt).subrange(18, 18 + packed_len(commitment)),
            commitment.len(),
        ) == commitment,
        spec_signed_credential_message(commitment, salt).subrange(
            18 + packed_len(commitment),
            50 + packed_len(commitment),
        ) == salt,
{
    lemma_domain_lengths();
    lemma_nibbles_roundtrip(commitment);
    let m = spec_signed_credential_message(commitment, salt);
    let p = packed_len(commitment);
    assert(m.subrange(0, 18) =~= signed_credential_domain());
    assert(m.subrange(18, 18 + p) =~= packed_nibbles(commitment));
    assert(m.subrange(18 + p, 50 + p) =~= salt);
}

/// The tag input determines the nonce: distinct nonces under one secret
/// and scope hash distinct messages.
pub proof fn lemma_tag_message_nonce(secret: Seq<u8>, scope: Seq<u8>, a: u32, b: u32)
    requires
        spec_tag_message(secret, scope, a) == spec_tag_message(secret, scope, b),
    ensures
        a == b,
{
    vstd::bytes::lemma_auto_spec_u32_to_from_le_bytes();
    let prefix = tag_domain() + secret + scope;
    let ma = spec_tag_message(secret, scope, a);
    assert(ma.skip(prefix.len() as int) =~= spec_u32_to_le_bytes(a));
    assert(spec_tag_message(secret, scope, b).skip(prefix.len() as int) =~= spec_u32_to_le_bytes(b));
}

/// Bit `i` of a byte string, least significant bit of each byte first.
pub open spec fn byte_bits(bytes: Seq<u8>) -> Seq<bool> {
    Seq::new(8 * bytes.len(), |i: int| (bytes[i / 8] >> ((i % 8) as u8)) & 1 == 1)
}

/// Bit `i` of a GF(16) string, least significant bit of each element first.
pub open spec fn nibble_bits(values: Seq<u8>) -> Seq<bool> {
    Seq::new(4 * values.len(), |i: int| (values[i / 4] >> ((i % 4) as u8)) & 1 == 1)
}

/// The 32 bits of a `u32`, least significant first.
pub open spec fn u32_bits(value: u32) -> Seq<bool> {
    Seq::new(32, |i: int| (value >> (i as u32)) & 1 == 1)
}

/// Append the bits of a byte string.
pub fn append_bytes_bits(output: &mut Vec<bool>, bytes: &[u8])
    ensures
        final(output)@ == old(output)@ + byte_bits(bytes@),
{
    let ghost start = output@;
    for index in 0..bytes.len()
        invariant
            output@ == start + byte_bits(bytes@.take(index as int)),
    {
        let byte = bytes[index];
        let ghost before = output@;
        for bit in 0..8u8
            invariant
                output@ == before + Seq::new(bit as nat, |k: int| (byte >> (k as u8)) & 1 == 1),
        {
            output.push((byte >> bit) & 1 == 1);
            assert(output@ =~= before + Seq::new((bit + 1) as nat, |k: int| (byte >> (k as u8)) & 1 == 1));
        }
        assert(byte_bits(bytes@.take(index + 1)) =~= byte_bits(bytes@.take(index as int)) + Seq::new(
            8,
            |k: int| (byte >> (k as u8)) & 1 == 1,
        ));
    }
    assert(bytes@.take(bytes@.len() as int) =~= bytes@);
}

/// The bits of a byte string.
pub fn bytes_bits(bytes: &[u8]) -> (bits: Vec<bool>)
    ensures
        bits@ == byte_bits(bytes@),
{
    let mut bits: Vec<bool> = Vec::new();
    append_bytes_bits(&mut bits, bytes);
    assert(bits@ =~= byte_bits(bytes@));
    bits
}

/// Append the bits of a GF(16) string.
pub fn append_gf16_bits(output: &mut Vec<bool>, values: &[u8])
    ensures
        final(output)@ == old(output)@ + nibble_bits(values@),
{
    let ghost start = output@;
    for index in 0..values.len()
        invariant
            output@ == start + nibble_bits(values@.take(index as int)),
    {
        let value = values[index];
        let ghost before = output@;
        for bit in 0..4u8
            invariant
                output@ == before + Seq::new(bit as nat, |k: int| (value >> (k as u8)) & 1 == 1),
        {
            output.push((value >> bit) & 1 == 1);
            assert(output@ =~= before + Seq::new((bit + 1) as nat, |k: int| (value >> (k as u8)) & 1 == 1));
        }
        assert(nibble_bits(values@.take(index + 1)) =~= nibble_bits(values@.take(index as int)) + Seq::new(
            4,
            |k: int| (value >> (k as u8)) & 1 == 1,
        ));
    }
    assert(values@.take(values@.len() as int) =~= values@);
}

/// The bits of a GF(16) string.
pub fn gf16_bits(values: &[u8]) -> (bits: Vec<bool>)
    ensures
        bits@ == nibble_bits(values@),
{
    let mut bits: Vec<bool> = Vec::new();
    append_gf16_bits(&mut bits, values);
    assert(bits@ =~= nibble_bits(values@));
    bits
}

/// Append the 32 bits of a hidden presentation nonce.
pub fn append_u32_bits(output: &mut Vec<bool>, value: u32)
    ensures
        final(output)@ == old(output)@ + u32_bits(value),
{
    let ghost start = output@;
    for bit in 0..32u32
        invariant
            output@ == start + Seq::new(bit as nat, |k: int| (value >> (k as u32)) & 1 == 1),
    {
        output.push((value >> bit) & 1 == 1);
        assert(output@ =~= start + Seq::new((bit + 1) as nat, |k: int| (value >> (k as u32)) & 1 == 1));
    }
    assert(u32_bits(value) =~= Seq::new(32, |k: int| (value >> (k as u32)) & 1 == 1));
}

/// The carry into bit `k` of `value + !limit + 1` (bit 0 receives the `+ 1`).
pub open spec fn spec_carry(value: u32, limit: u32, k: u32) -> u64 {
    ((low_bits(value, k) + low_bits(!limit, k) + 1) as u64) >> k
}

/// The `k` low bits of `x`.
pub open spec fn low_bits(x: u32, k: u32) -> u64 {
    (x as u64) & (((1u64 << k) - 1) as u64)
}

/// The carry-out bits of `value + !limit + 1`, one per bit position.
pub open spec fn carry_bits(value: u32, limit: u32) -> Seq<bool> {
    Seq::new(32, |i: int| spec_carry(value, limit, (i + 1) as u32) == 1)
}

proof fn lemma_carry_start(value: u32, limit: u32)
    by (bit_vector)
    ensures
        spec_carry(value, limit, 0) == 1,
{
}

proof fn lemma_carry_step(value: u32, limit: u32, k: u32, carry: u32)
    by (bit_vector)
    requires
        k < 32,
        carry as u64 == spec_carry(value, limit, k),
    ensures
        ({
            let a = (value >> k) & 1;
            let b = (!limit >> k) & 1;
            ((a & b) | (a & carry) | (b & carry)) as u64 == spec_carry(value, limit, (k + 1) as u32)
        }),
        spec_carry(value, limit, (k + 1) as u32) <= 1,
{
}

/// The final carry of `value + !limit + 1` is one exactly when
/// `value >= limit`: constraining it to zero proves `value < limit`.
pub proof fn lemma_final_carry(value: u32, limit: u32)
    by (bit_vector)
    ensures
        (spec_carry(value, limit, 32) == 1) == (value >= limit),
{
}

/// Append the carry chain of `value + !limit + 1`.
pub fn append_less_than_carries(output: &mut Vec<bool>, value: u32, limit: u32)
    ensures
        final(output)@ == old(output)@ + carry_bits(value, limit),
{
    let ghost start = output@;
    let mut carry: u32 = 1;
    proof {
        lemma_carry_start(value, limit);
    }
    for bit in 0..32u32
        invariant
            carry as u64 == spec_carry(value, limit, bit),
            output@ == start + Seq::new(bit as nat, |k: int| spec_carry(value, limit, (k + 1) as u32) == 1),
    {
        let a = (value >> bit) & 1;
        let b = (!limit >> bit) & 1;
        proof {
            lemma_carry_step(value, limit, bit, carry);
        }
        carry = (a & b) | (a & carry) | (b & carry);
        output.push(carry == 1);
        assert(output@ =~= start + Seq::new((bit + 1) as nat, |k: int| spec_carry(value, limit, (k + 1) as u32) == 1));
    }
    assert(carry_bits(value, limit) =~= Seq::new(32, |k: int| spec_carry(value, limit, (k + 1) as u32) == 1));
}

/// The carry chain of `value + !limit + 1`; its last bit is set exactly
/// when `value >= limit`.
pub fn less_than_carries(value: u32, limit: u32) -> (carries: Vec<bool>)
    ensures
        carries@ == carry_bits(value, limit),
        carries@.len() == PRESENTATION_NONCE_BITS,
        carries@.last() == (value >= limit),
{
    let mut carries: Vec<bool> = Vec::new();
    append_less_than_carries(&mut carries, value, limit);
    assert(carries@ =~= carry_bits(value, limit));
    proof {
        lemma_final_carry(value, limit);
    }
    carries
}

/// The 1600 bits of a Keccak state in circuit order: bit `z` of lane
/// `x + 5*y` is bit `64*(x + 5*y) + z`.
pub open spec fn state_bits(s: Seq<u64>) -> Seq<bool> {
    Seq::new(1600, |i: int| (s[i / 64] >> ((i % 64) as u64)) & 1 == 1)
}

/// The state after absorbing the single padded block of a short message.
pub open spec fn absorbed_state(message: Seq<u8>) -> Seq<u64> {
    keccak::spec_absorb(keccak::zero_state(), keccak::spec_pad(message))
}

/// The states after every fourth round of the first `groups` groups of
/// four rounds of Keccak-f over the absorbed message, bit by bit.
pub open spec fn checkpoint_bits(message: Seq<u8>, groups: nat) -> Seq<bool>
    decreases groups,
{
    if groups == 0 {
        Seq::empty()
    } else {
        checkpoint_bits(message, (groups - 1) as nat) + state_bits(
            keccak::keccak_rounds(absorbed_state(message), 4 * groups),
        )
    }
}

/// The six committed Keccak checkpoints of a single-block message.
pub open spec fn keccak_checkpoints(message: Seq<u8>) -> Seq<bool> {
    checkpoint_bits(message, 6)
}

/// Append the 1600 bits of a state in circuit order.
pub fn append_state_bits(witness: &mut Vec<bool>, state: &[u64; 25])
    ensures
        final(witness)@ == old(witness)@ + state_bits(state@),
{
    let ghost before = witness@;
    for bit in 0..1600
        invariant
            witness@ == before + state_bits(state@).take(bit as int),
    {
        let value = keccak::state_bit(state, bit);
        witness.push(value);
        assert(witness@ =~= before + state_bits(state@).take(bit + 1));
    }
    assert(state_bits(state@).take(1600) =~= state_bits(state@));
}

proof fn lemma_checkpoint_step(message: Seq<u8>, rounds: nat)
    requires
        rounds % 4 == 0,
        rounds > 0,
    ensures
        checkpoint_bits(message, rounds / 4) == checkpoint_bits(message, ((rounds - 1) / 4) as nat)
            + state_bits(keccak::keccak_rounds(absorbed_state(message), rounds)),
{
    assert((rounds - 1) / 4 == rounds / 4 - 1);
    assert(4 * (rounds / 4) == rounds);
}

proof fn lemma_rounds_step(s: Seq<u64>, n: nat)
    requires
        n < 24,
    ensures
        keccak::keccak_rounds(s, n + 1) == keccak::spec_round(keccak::keccak_rounds(s, n), keccak::RC[n as int]),
{
}

/// Append the full state after rounds 4, 8, ..., 24 of the permutation that
/// hashes a single-block message.
#[verifier::spinoff_prover]
#[verifier::rlimit(40)]
pub fn append_keccak_checkpoints(witness: &mut Vec<bool>, message: &[u8])
    requires
        message@.len() < RATE_BYTES,
    ensures
        final(witness)@ == old(witness)@ + keccak_checkpoints(message@),
{
    let ghost start = witness@;
    let mut block = keccak::pad_single_block(message);
    let mut state: [u64; 25] = [0u64; 25];
    assert(state@ =~= keccak::zero_state());
    keccak::absorb_block(&mut state, &block);
    for round_index in 0..24
        invariant
            state@ == keccak::keccak_rounds(absorbed_state(message@), round_index as nat),
            witness@ == start + checkpoint_bits(message@, (round_index / 4) as nat),
    {
        state = keccak::round(&state, keccak::RC[round_index]);
        proof {
            lemma_rounds_step(absorbed_state(message@), round_index as nat);
        }
        if (round_index + 1) % 4 == 0 {
            append_state_bits(witness, &state);
            proof {
                lemma_checkpoint_step(message@, (round_index + 1) as nat);
            }
        }
    }
    crate::secret::wipe_lanes(&mut state);
    crate::secret::wipe_array(&mut block);
}

/// The theta-state bit that rho and pi move to bit `i` of the state.
pub open spec fn pi_rho_source(i: int) -> int {
    let lane = i / 64;
    let z = i % 64;
    let source = keccak::pi_source(lane);
    64 * source + (z + 64 - RHO[source]) % 64
}

/// The bit permutation of rho followed by pi: entry `i` is the position in
/// the theta state that becomes bit `i`.
pub fn pi_rho_index() -> (index: [usize; 1600])
    ensures
        forall|i: int| 0 <= i < 1600 ==> #[trigger] index[i] == pi_rho_source(i),
        forall|i: int| 0 <= i < 1600 ==> #[trigger] index[i] < 1600,
{
    proof {
        keccak::lemma_rho_bound();
    }
    let mut index = [0usize; 1600];
    for lane in 0..25
        invariant
            forall|j: int| 0 <= j < 64 * lane ==> #[trigger] index[j] == pi_rho_source(j),
            forall|j: int| 0 <= j < 64 * lane ==> #[trigger] index[j] < 1600,
    {
        let target_x = lane % 5;
        let target_y = lane / 5;
        let source = (target_x + 3 * target_y) % 5 + 5 * target_x;
        assert(source == keccak::pi_source(lane as int));
        let rotation = RHO[source] as usize;
        for z in 0..64
            invariant
                lane < 25,
                source < 25,
                source == keccak::pi_source(lane as int),
                rotation == RHO[source as int],
                rotation < 64,
                forall|j: int| 0 <= j < 64 * lane + z ==> #[trigger] index[j] == pi_rho_source(j),
                forall|j: int| 0 <= j < 64 * lane + z ==> #[trigger] index[j] < 1600,
        {
            index[64 * lane + z] = 64 * source + (z + 64 - rotation) % 64;
            assert((64 * lane + z) / 64 == lane && (64 * lane + z) % 64 == z);
        }
    }
    index
}

proof fn lemma_rotl_bit(x: u64, n: u32, z: u64)
    by (bit_vector)
    requires
        n < 64,
        z < 64,
    ensures
        (rotl(x, n) >> z) & 1 == (x >> ((z + 64 - n) % 64) as u64) & 1,
{
}

/// Rho and pi as a bit permutation agree with the lane-wise round: bit `i`
/// after rho and pi is bit `pi_rho_source(i)` of the theta state.
pub proof fn lemma_pi_rho_index_matches_round(s: Seq<u64>, i: int)
    requires
        s.len() == 25,
        0 <= i < 1600,
    ensures
        0 <= pi_rho_source(i) < 1600,
        (keccak::rho_pi_lane(s, i / 64) >> ((i % 64) as u64)) & 1 == (keccak::theta_lane(
            s,
            pi_rho_source(i) / 64,
        ) >> ((pi_rho_source(i) % 64) as u64)) & 1,
{
    keccak::lemma_rho_bound();
    let lane = i / 64;
    let z = i % 64;
    let source = keccak::pi_source(lane);
    assert(0 <= source < 25);
    let offset = (z + 64 - RHO[source]) % 64;
    assert(pi_rho_source(i) / 64 == source && pi_rho_source(i) % 64 == offset);
    lemma_rotl_bit(keccak::theta_lane(s, source), RHO[source], z as u64);
}

/// The witness of the issuance relation: the secret, the hiding nonce, and
/// the checkpoints of the commitment hash.
pub open spec fn issue_witness(scope: Seq<u8>, secret: Seq<u8>, hiding_nonce: Seq<u8>) -> Seq<bool> {
    byte_bits(secret) + byte_bits(hiding_nonce) + keccak_checkpoints(
        spec_credential_message(scope, secret, hiding_nonce),
    )
}

/// The public inputs of the issuance relation: the credential scope and
/// the `P::M`-nibble commitment that the hidden secret hashes to.
pub struct IssueCircuit<P: ArcParams> {
    pub credential_scope: [u8; 32],
    pub target: Vec<u8>,
    pub params: PhantomData<P>,
}

impl<P: ArcParams> IssueCircuit<P> {
    /// The prover's witness for a secret and hiding nonce.
    pub fn witness(&self, secret: &[u8; SECRET_BYTES], hiding_nonce: &[u8; HIDING_NONCE_BYTES]) -> (witness: Vec<bool>)
        ensures
            witness@ == issue_witness(self.credential_scope@, secret@, hiding_nonce@),
    {
        let mut witness: Vec<bool> = Vec::new();
        append_bytes_bits(&mut witness, vstd::array::array_as_slice(secret));
        append_bytes_bits(&mut witness, vstd::array::array_as_slice(hiding_nonce));
        let mut message = credential_message(&self.credential_scope, secret, hiding_nonce);
        append_keccak_checkpoints(&mut witness, message.as_slice());
        crate::secret::wipe_vec(&mut message);
        assert(witness@ =~= issue_witness(self.credential_scope@, secret@, hiding_nonce@));
        witness
    }
}

/// The public inputs of the presentation relation. The MAYO system that
/// checks the signature travels beside it, with the proof backend.
pub struct PresentationCircuit<P: ArcParams> {
    pub credential_scope: [u8; 32],
    pub presentation_scope: [u8; 32],
    pub presentation_limit: u32,
    pub tag: [u8; 32],
    pub params: PhantomData<P>,
}

/// The prover's hidden values for one presentation.
pub struct PresentationSecrets<'a> {
    pub signature: &'a [u8],
    pub secret: &'a [u8; SECRET_BYTES],
    pub hiding_nonce: &'a [u8; HIDING_NONCE_BYTES],
    pub salt: &'a [u8; SALT_BYTES],
    pub presentation_nonce: u32,
}

/// The witness of the presentation relation, in allocation order: the
/// signature nibbles, secret, hiding nonce, salt, nonce, the carry chain of
/// `nonce < limit`, and the checkpoints of the commitment, signed-target,
/// and tag hashes.
pub open spec fn presentation_witness(
    m: nat,
    credential_scope: Seq<u8>,
    presentation_scope: Seq<u8>,
    limit: u32,
    signature: Seq<u8>,
    secret: Seq<u8>,
    hiding_nonce: Seq<u8>,
    salt: Seq<u8>,
    nonce: u32,
) -> Seq<bool> {
    let credential = spec_credential_message(credential_scope, secret, hiding_nonce);
    let commitment = hash_to_nibbles(credential, m);
    nibble_bits(signature) + byte_bits(secret) + byte_bits(hiding_nonce) + byte_bits(salt)
        + u32_bits(nonce) + carry_bits(nonce, limit) + keccak_checkpoints(credential)
        + keccak_checkpoints(spec_signed_credential_message(commitment, salt))
        + keccak_checkpoints(spec_tag_message(secret, presentation_scope, nonce))
}

impl<P: ArcParams> PresentationCircuit<P> {
    /// The prover's witness for one presentation.
    pub fn witness(&self, secrets: &PresentationSecrets<'_>) -> (witness: Vec<bool>)
        ensures
            witness@ == presentation_witness(
                P::spec_m(),
                self.credential_scope@,
                self.presentation_scope@,
                self.presentation_limit,
                secrets.signature@,
                secrets.secret@,
                secrets.hiding_nonce@,
                secrets.salt@,
                secrets.presentation_nonce,
            ),
    {
        let mut witness: Vec<bool> = Vec::new();
        append_gf16_bits(&mut witness, secrets.signature);
        append_bytes_bits(&mut witness, vstd::array::array_as_slice(secrets.secret));
        append_bytes_bits(&mut witness, vstd::array::array_as_slice(secrets.hiding_nonce));
        append_bytes_bits(&mut witness, vstd::array::array_as_slice(secrets.salt));
        append_u32_bits(&mut witness, secrets.presentation_nonce);
        append_less_than_carries(&mut witness, secrets.presentation_nonce, self.presentation_limit);

        let mut commitment = credential_target::<P>(&self.credential_scope, secrets.secret, secrets.hiding_nonce);
        let mut credential = credential_message(&self.credential_scope, secrets.secret, secrets.hiding_nonce);
        append_keccak_checkpoints(&mut witness, credential.as_slice());
        let mut signed = signed_credential_message::<P>(commitment.as_slice(), secrets.salt);
        append_keccak_checkpoints(&mut witness, signed.as_slice());
        let mut tag = tag_message(secrets.secret, &self.presentation_scope, secrets.presentation_nonce);
        append_keccak_checkpoints(&mut witness, tag.as_slice());
        crate::secret::wipe_vec(&mut commitment);
        crate::secret::wipe_vec(&mut credential);
        crate::secret::wipe_vec(&mut signed);
        crate::secret::wipe_vec(&mut tag);
        assert(witness@ =~= presentation_witness(
            P::spec_m(),
            self.credential_scope@,
            self.presentation_scope@,
            self.presentation_limit,
            secrets.signature@,
            secrets.secret@,
            secrets.hiding_nonce@,
            secrets.salt@,
            secrets.presentation_nonce,
        ));
        witness
    }
}

/// Where the parts of a credential-commitment input sit: the label
/// `VOLE-ARC/credential/v1` in bytes 0..22, then the 32-byte credential
/// scope at 22..54, the 32-byte secret at 54..86, and the 32-byte hiding
/// nonce at 86..118.
pub proof fn lemma_credential_message_layout(scope: Seq<u8>, secret: Seq<u8>, hiding_nonce: Seq<u8>)
    requires
        scope.len() == 32,
        secret.len() == 32,
        hiding_nonce.len() == 32,
    ensures
        spec_credential_message(scope, secret, hiding_nonce).len() == 118,
        spec_credential_message(scope, secret, hiding_nonce).subrange(0, 22)
            == "VOLE-ARC/credential/v1".spec_bytes(),
        spec_credential_message(scope, secret, hiding_nonce).subrange(22, 54) == scope,
        spec_credential_message(scope, secret, hiding_nonce).subrange(54, 86) == secret,
        spec_credential_message(scope, secret, hiding_nonce).subrange(86, 118) == hiding_nonce,
{
    lemma_domain_lengths();
    let m = spec_credential_message(scope, secret, hiding_nonce);
    assert(m.subrange(0, 22) =~= credential_domain());
    assert(m.subrange(22, 54) =~= scope);
    assert(m.subrange(54, 86) =~= secret);
    assert(m.subrange(86, 118) =~= hiding_nonce);
}

/// The credential scope hashes the label `VOLE-ARC/credential-scope/v1`
/// (bytes 0..28), then the issuer context (28..60), then the credential
/// context (60..92).
pub proof fn lemma_credential_scope_layout(issuer_context: Seq<u8>, credential_context: Seq<u8>)
    requires
        issuer_context.len() == 32,
        credential_context.len() == 32,
    ensures
        forall|message: Seq<u8>|
            message.len() == 92 && message.subrange(0, 28) == "VOLE-ARC/credential-scope/v1".spec_bytes()
                && message.subrange(28, 60) == issuer_context && message.subrange(60, 92)
                == credential_context ==> spec_credential_scope(issuer_context, credential_context)
                == #[trigger] sha3_shake256_32(message),
{
    reveal_strlit("VOLE-ARC/credential-scope/v1");
    broadcast use vstd::string::is_ascii_spec_bytes;
    assert(vstd::string::is_ascii("VOLE-ARC/credential-scope/v1"));
    assert forall|message: Seq<u8>|
        message.len() == 92 && message.subrange(0, 28) == "VOLE-ARC/credential-scope/v1".spec_bytes()
            && message.subrange(28, 60) == issuer_context && message.subrange(60, 92)
            == credential_context implies spec_credential_scope(issuer_context, credential_context)
            == #[trigger] sha3_shake256_32(message) by {
        assert(message =~= message.subrange(0, 28) + message.subrange(28, 60) + message.subrange(60, 92));
    }
}

/// The presentation scope hashes the label
/// `VOLE-ARC/presentation-scope/v1` (bytes 0..30), then the issuer context
/// (30..62), the credential context (62..94), and the presentation context
/// (94..126).
pub proof fn lemma_presentation_scope_layout(
    issuer_context: Seq<u8>,
    credential_context: Seq<u8>,
    presentation_context: Seq<u8>,
)
    requires
        issuer_context.len() == 32,
        credential_context.len() == 32,
        presentation_context.len() == 32,
    ensures
        forall|message: Seq<u8>|
            message.len() == 126 && message.subrange(0, 30) == "VOLE-ARC/presentation-scope/v1".spec_bytes()
                && message.subrange(30, 62) == issuer_context && message.subrange(62, 94)
                == credential_context && message.subrange(94, 126) == presentation_context
                ==> spec_presentation_scope(issuer_context, credential_context, presentation_context)
                == #[trigger] sha3_shake256_32(message),
{
    reveal_strlit("VOLE-ARC/presentation-scope/v1");
    broadcast use vstd::string::is_ascii_spec_bytes;
    assert(vstd::string::is_ascii("VOLE-ARC/presentation-scope/v1"));
    assert forall|message: Seq<u8>|
        message.len() == 126 && message.subrange(0, 30) == "VOLE-ARC/presentation-scope/v1".spec_bytes()
            && message.subrange(30, 62) == issuer_context && message.subrange(62, 94)
            == credential_context && message.subrange(94, 126) == presentation_context
            implies spec_presentation_scope(issuer_context, credential_context, presentation_context)
            == #[trigger] sha3_shake256_32(message) by {
        assert(message =~= message.subrange(0, 30) + message.subrange(30, 62) + message.subrange(62, 94)
            + message.subrange(94, 126));
    }
}

/// Where the parts of a MAYO key-digest input sit: the label
/// `VOLE-ARC/mayo-public-key/v1` in bytes 0..27, then `n`, `m`, `o`, `k`
/// as little-endian `u64`s at 27, 35, 43, and 51, then the forms' entries
/// from byte 59 on.
pub proof fn lemma_mayo_key_message_layout(dimensions: (u64, u64, u64, u64), forms: Seq<Seq<u8>>)
    ensures
        ({
            let m = mayo_key_message(dimensions, forms);
            &&& m.subrange(0, 27) == "VOLE-ARC/mayo-public-key/v1".spec_bytes()
            &&& m.subrange(27, 35) == spec_u64_to_le_bytes(dimensions.0)
            &&& m.subrange(35, 43) == spec_u64_to_le_bytes(dimensions.1)
            &&& m.subrange(43, 51) == spec_u64_to_le_bytes(dimensions.2)
            &&& m.subrange(51, 59) == spec_u64_to_le_bytes(dimensions.3)
            &&& m.skip(59) == forms.flatten()
        }),
{
    reveal_strlit("VOLE-ARC/mayo-public-key/v1");
    broadcast use vstd::string::is_ascii_spec_bytes;
    assert(vstd::string::is_ascii("VOLE-ARC/mayo-public-key/v1"));
    vstd::bytes::lemma_auto_spec_u64_to_from_le_bytes();
    let m = mayo_key_message(dimensions, forms);
    assert(mayo_key_domain().len() == 27);
    assert(m.subrange(0, 27) =~= mayo_key_domain());
    assert(m.subrange(27, 35) =~= spec_u64_to_le_bytes(dimensions.0));
    assert(m.subrange(35, 43) =~= spec_u64_to_le_bytes(dimensions.1));
    assert(m.subrange(43, 51) =~= spec_u64_to_le_bytes(dimensions.2));
    assert(m.subrange(51, 59) =~= spec_u64_to_le_bytes(dimensions.3));
    assert(m.skip(59) =~= forms.flatten());
}

proof fn lemma_byte_nibbles(b: u8)
    by (bit_vector)
    ensures
        (b >> 0u8) & 0x0f == b % 16,
        (b >> 4u8) & 0x0f == b / 16,
{
}

/// Hashing to nibbles reads the low half of each output byte first:
/// nibble `i` is byte `i / 2` modulo 16 for even `i`, and that byte
/// divided by 16 for odd `i`.
pub proof fn lemma_nibbles_of_values(bytes: Seq<u8>, count: nat)
    ensures
        nibbles_of(bytes, count).len() == count,
        forall|i: int|
            0 <= i < count ==> #[trigger] nibbles_of(bytes, count)[i] == if i % 2 == 0 {
                bytes[i / 2] % 16
            } else {
                bytes[i / 2] / 16
            },
{
    assert forall|i: int| 0 <= i < count implies #[trigger] nibbles_of(bytes, count)[i] == if i % 2 == 0 {
        bytes[i / 2] % 16
    } else {
        bytes[i / 2] / 16
    } by {
        lemma_byte_nibbles(bytes[i / 2]);
        if i % 2 == 0 {
            assert(((4 * (i % 2)) as u8) == 0u8);
        } else {
            assert(((4 * (i % 2)) as u8) == 4u8);
        }
    }
}

} // verus!
