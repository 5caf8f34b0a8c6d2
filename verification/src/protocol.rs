//! Issuance, scoped presentations, verification, and client state.
//!
//! The MAYO signature scheme and the VOLE-in-the-head prover are not part of
//! this crate's verified core: functions that need them take the outcome of
//! the outside step as a closure argument, and their contracts say what
//! they hand to it and what they do with every possible answer.

use std::marker::PhantomData;
use vstd::prelude::*;
use vstd::bytes::{spec_u32_to_le_bytes, spec_u64_from_le_bytes, spec_u64_to_le_bytes, u32_to_le_bytes};
use vstd::string::StringSliceAdditionalSpecFns;
use crate::circuit::{
    credential_target, hash_to_nibbles, issue_witness, signed_credential_target,
    spec_credential_message, spec_signed_credential_message, IssueCircuit, lemma_tag_message_nonce, spec_tag_message, credential_scope, derive_tag, presentation_scope, presentation_witness, spec_credential_scope,
    spec_derive_tag, spec_presentation_scope, PresentationCircuit, PresentationSecrets, SALT_BYTES,
};
use crate::context::{
    CredentialContext, PresentationBinding, PresentationChallenge, PresentationContext,
};
use crate::counters::{
    ascending, has_context, lemma_lex_transitive, lex_less, nonce_of, order_digests, valid_counters,
    Counters,
};
use crate::secret::{wipe_bits, wipe_vec};
use crate::store::{MemoryTagStore, TagStore};
use crate::digest::{sha3_shake256_32, shake256_32};
use crate::markers::ArcParams;
use crate::markers::{Error, lemma_profile_wire_roundtrip, profile_from_wire_id, profile_wire_id, PerformanceProfile};
use crate::wire::{
    all_nibbles, bytes_eq, copy_bytes, u32_at, digests_eq, extend_bytes, fixed_at, framed_at, nibbles_at, pack_nibbles, packed_nibbles, framed_bytes, header, header_bytes, header_check,
    lemma_framed_roundtrip, lemma_header_accepted, lemma_nibbles_repack, lemma_nibbles_roundtrip,
    lemma_unpacked_nibbles, put_bytes, u64_le_bytes, Decoder, WireError,
    HEADER_BYTES, MAGIC, MAX_WIRE_BYTES,
};

verus! {

/// Maximum application-context length encoded in an issuer key.
pub const MAX_APPLICATION_CONTEXT_BYTES: usize = 4096;

/// Maximum number of presentation-context counters retained in one
/// credential.
///
/// Context state cannot be evicted safely: resetting a counter repeats a tag,
/// harming unlinkability and causing a server-side duplicate. Rotate the
/// credential or use an application-managed state design if this bound is
/// unsuitable.
pub const MAX_PRESENTATION_CONTEXTS: usize = 4096;

/// Envelope artifact type of an issuer public key.
pub const WIRE_PUBLIC_KEY: u8 = 1;

/// Envelope artifact type of an issuer secret key.
pub const WIRE_ISSUER_KEY: u8 = 2;

/// Envelope artifact type of an issuance request.
pub const WIRE_ISSUE_REQUEST: u8 = 3;

/// Envelope artifact type of an issuance response.
pub const WIRE_ISSUE_RESPONSE: u8 = 4;

/// Envelope artifact type of pending issuance state.
pub const WIRE_PENDING_ISSUE: u8 = 5;

/// Envelope artifact type of a credential.
pub const WIRE_CREDENTIAL: u8 = 6;

/// Envelope artifact type of a presentation.
pub const WIRE_PRESENTATION: u8 = 7;

/// Domain label of issuance statements.
pub open spec fn issue_statement_domain() -> Seq<u8> {
    "VOLE-ARC/issue-statement/v1".spec_bytes()
}

/// Domain label of presentation statements.
pub open spec fn presentation_statement_domain() -> Seq<u8> {
    "VOLE-ARC/presentation-statement/v1".spec_bytes()
}

/// Domain label of the issuer context.
pub open spec fn issuer_context_domain() -> Seq<u8> {
    "VOLE-ARC/issuer-context/v1".spec_bytes()
}

/// A byte string preceded by its length as a little-endian `u64`.
pub open spec fn length_prefixed(bytes: Seq<u8>) -> Seq<u8> {
    spec_u64_to_le_bytes(bytes.len() as u64) + bytes
}

/// Append a byte string preceded by its `u64` length.
pub fn encode_bytes(bytes: &[u8], output: &mut Vec<u8>)
    ensures
        final(output)@ == old(output)@ + length_prefixed(bytes@),
{
    let ghost start = output@;
    let prefix = u64_le_bytes(bytes.len() as u64);
    extend_bytes(output, vstd::array::array_as_slice(&prefix));
    extend_bytes(output, bytes);
    assert(output@ =~= start + length_prefixed(bytes@));
}

/// Append a GF(16) string, one element per byte, preceded by its `u64`
/// length.
pub fn encode_target(target: &[u8], output: &mut Vec<u8>)
    ensures
        final(output)@ == old(output)@ + length_prefixed(target@),
{
    let ghost start = output@;
    let prefix = u64_le_bytes(target.len() as u64);
    extend_bytes(output, vstd::array::array_as_slice(&prefix));
    for index in 0..target.len()
        invariant
            output@ == start + spec_u64_to_le_bytes(target@.len() as u64) + target@.take(index as int),
    {
        output.push(target[index]);
        assert(target@.take(index + 1) =~= target@.take(index as int).push(target@[index as int]));
    }
    assert(target@.take(target@.len() as int) =~= target@);
    assert(output@ =~= start + length_prefixed(target@));
}

/// The public statement of an issuance proof.
pub open spec fn spec_issue_statement(
    name: Seq<u8>,
    issuer_context: Seq<u8>,
    credential_context: Seq<u8>,
    commitment: Seq<u8>,
) -> Seq<u8> {
    issue_statement_domain() + length_prefixed(name) + issuer_context + credential_context
        + length_prefixed(commitment)
}

/// Bind the suite, issuer, credential context, and commitment into the
/// issuance proof.
pub fn issue_statement<P: ArcParams>(
    issuer_context: &[u8; 32],
    credential_context: &[u8; 32],
    commitment: &[u8],
) -> (statement: Vec<u8>)
    ensures
        statement@ == spec_issue_statement(
            P::spec_name(),
            issuer_context@,
            credential_context@,
            commitment@,
        ),
{
    let mut output: Vec<u8> = Vec::new();
    extend_bytes(&mut output, "VOLE-ARC/issue-statement/v1".as_bytes());
    encode_bytes(P::name().as_bytes(), &mut output);
    extend_bytes(&mut output, vstd::array::array_as_slice(issuer_context));
    extend_bytes(&mut output, vstd::array::array_as_slice(credential_context));
    encode_target(commitment, &mut output);
    output
}

/// The public statement of a presentation proof.
pub open spec fn spec_presentation_statement(
    name: Seq<u8>,
    issuer_context: Seq<u8>,
    challenge: PresentationChallenge,
    tag: Seq<u8>,
) -> Seq<u8> {
    presentation_statement_domain() + length_prefixed(name) + issuer_context
        + challenge.spec_credential_context().bytes() + challenge.spec_presentation_context().bytes()
        + spec_u32_to_le_bytes(challenge.spec_limit()) + challenge.spec_binding().bytes() + tag
}

/// Bind the suite, issuer, challenge, and tag into the presentation proof.
pub fn presentation_statement<P: ArcParams>(
    issuer_context: &[u8; 32],
    challenge: &PresentationChallenge,
    tag: &[u8; 32],
) -> (statement: Vec<u8>)
    ensures
        statement@ == spec_presentation_statement(P::spec_name(), issuer_context@, *challenge, tag@),
{
    let mut output: Vec<u8> = Vec::new();
    extend_bytes(&mut output, "VOLE-ARC/presentation-statement/v1".as_bytes());
    encode_bytes(P::name().as_bytes(), &mut output);
    extend_bytes(&mut output, vstd::array::array_as_slice(issuer_context));
    let credential_context = challenge.credential_context().digest();
    extend_bytes(&mut output, vstd::array::array_as_slice(&credential_context));
    let presentation_context = challenge.presentation_context().digest();
    extend_bytes(&mut output, vstd::array::array_as_slice(&presentation_context));
    let limit = u32_to_le_bytes(challenge.limit());
    extend_bytes(&mut output, limit.as_slice());
    let binding = challenge.binding().digest();
    extend_bytes(&mut output, vstd::array::array_as_slice(&binding));
    extend_bytes(&mut output, vstd::array::array_as_slice(tag));
    output
}

/// The issuer-context hash input: application context, MAYO key digest,
/// parameter set, security level, and the VOLE profile's tree geometry.
pub open spec fn issuer_context_message(
    application_context: Seq<u8>,
    public_key_hash: Seq<u8>,
    name: Seq<u8>,
    tau: u64,
    k: u64,
) -> Seq<u8> {
    issuer_context_domain() + length_prefixed(application_context) + public_key_hash + name
        + spec_u64_to_le_bytes(32) + spec_u64_to_le_bytes(tau) + spec_u64_to_le_bytes(k)
}

/// Where the parts of an issuer-context input sit: the label
/// `VOLE-ARC/issuer-context/v1` in bytes 0..26, the application context's
/// length as a little-endian `u64`, the application context, the 32-byte
/// MAYO key digest, the parameter-set name, and then, in the last 24
/// bytes, the security level 32, `tau`, and `k`, each a little-endian
/// `u64`.
pub proof fn lemma_issuer_context_layout(
    application_context: Seq<u8>,
    public_key_hash: Seq<u8>,
    name: Seq<u8>,
    tau: u64,
    k: u64,
)
    requires
        application_context.len() <= u64::MAX,
        public_key_hash.len() == 32,
    ensures
        ({
            let m = issuer_context_message(application_context, public_key_hash, name, tau, k);
            let a = application_context.len() as int;
            let n = name.len() as int;
            &&& m.len() == 90 + a + n
            &&& m.subrange(0, 26) == "VOLE-ARC/issuer-context/v1".spec_bytes()
            &&& m.subrange(26, 34) == spec_u64_to_le_bytes(application_context.len() as u64)
            &&& m.subrange(34, 34 + a) == application_context
            &&& m.subrange(34 + a, 66 + a) == public_key_hash
            &&& m.subrange(66 + a, 66 + a + n) == name
            &&& m.subrange(66 + a + n, 74 + a + n) == spec_u64_to_le_bytes(32)
            &&& m.subrange(74 + a + n, 82 + a + n) == spec_u64_to_le_bytes(tau)
            &&& m.subrange(82 + a + n, 90 + a + n) == spec_u64_to_le_bytes(k)
        }),
{
    reveal_strlit("VOLE-ARC/issuer-context/v1");
    broadcast use vstd::string::is_ascii_spec_bytes;
    assert(vstd::string::is_ascii("VOLE-ARC/issuer-context/v1"));
    vstd::bytes::lemma_auto_spec_u64_to_from_le_bytes();
    let m = issuer_context_message(application_context, public_key_hash, name, tau, k);
    let a = application_context.len() as int;
    let n = name.len() as int;
    assert(issuer_context_domain().len() == 26);
    assert(m.subrange(0, 26) =~= issuer_context_domain());
    assert(m.subrange(26, 34) =~= spec_u64_to_le_bytes(application_context.len() as u64));
    assert(m.subrange(34, 34 + a) =~= application_context);
    assert(m.subrange(34 + a, 66 + a) =~= public_key_hash);
    assert(m.subrange(66 + a, 66 + a + n) =~= name);
    assert(m.subrange(66 + a + n, 74 + a + n) =~= spec_u64_to_le_bytes(32));
    assert(m.subrange(74 + a + n, 82 + a + n) =~= spec_u64_to_le_bytes(tau));
    assert(m.subrange(82 + a + n, 90 + a + n) =~= spec_u64_to_le_bytes(k));
}

/// The issuer context binds the VOLE profile: two issuer-context inputs
/// that agree on everything else and hash the same bytes have the same
/// `tau` and the same `k`.
pub proof fn lemma_issuer_context_binds_profile(
    application_context: Seq<u8>,
    public_key_hash: Seq<u8>,
    name: Seq<u8>,
    tau_a: u64,
    k_a: u64,
    tau_b: u64,
    k_b: u64,
)
    requires
        application_context.len() <= u64::MAX,
        public_key_hash.len() == 32,
        issuer_context_message(application_context, public_key_hash, name, tau_a, k_a)
            == issuer_context_message(application_context, public_key_hash, name, tau_b, k_b),
    ensures
        tau_a == tau_b,
        k_a == k_b,
{
    vstd::bytes::lemma_auto_spec_u64_to_from_le_bytes();
    lemma_issuer_context_layout(application_context, public_key_hash, name, tau_a, k_a);
    lemma_issuer_context_layout(application_context, public_key_hash, name, tau_b, k_b);
    let a = application_context.len() as int;
    let n = name.len() as int;
    let ma = issuer_context_message(application_context, public_key_hash, name, tau_a, k_a);
    assert(spec_u64_to_le_bytes(tau_a) == ma.subrange(74 + a + n, 82 + a + n));
    assert(spec_u64_to_le_bytes(k_a) == ma.subrange(82 + a + n, 90 + a + n));
    assert(spec_u64_from_le_bytes(spec_u64_to_le_bytes(tau_a)) == tau_a);
    assert(spec_u64_from_le_bytes(spec_u64_to_le_bytes(tau_b)) == tau_b);
    assert(spec_u64_from_le_bytes(spec_u64_to_le_bytes(k_a)) == k_a);
    assert(spec_u64_from_le_bytes(spec_u64_to_le_bytes(k_b)) == k_b);
}

/// The protocol context binding the key, application domain, parameter set,
/// protocol version, and VOLE profile (`tau` and `k` of its parameters).
pub fn derive_issuer_context<P: ArcParams>(
    application_context: &[u8],
    public_key_hash: &[u8; 32],
    tau: u64,
    k: u64,
) -> (context: [u8; 32])
    ensures
        context@ == sha3_shake256_32(
            issuer_context_message(application_context@, public_key_hash@, P::spec_name(), tau, k),
        ),
{
    let mut message: Vec<u8> = Vec::new();
    extend_bytes(&mut message, "VOLE-ARC/issuer-context/v1".as_bytes());
    encode_bytes(application_context, &mut message);
    extend_bytes(&mut message, vstd::array::array_as_slice(public_key_hash));
    extend_bytes(&mut message, P::name().as_bytes());
    let level = u64_le_bytes(32);
    extend_bytes(&mut message, vstd::array::array_as_slice(&level));
    let tau_bytes = u64_le_bytes(tau);
    extend_bytes(&mut message, vstd::array::array_as_slice(&tau_bytes));
    let k_bytes = u64_le_bytes(k);
    extend_bytes(&mut message, vstd::array::array_as_slice(&k_bytes));
    assert(message@ =~= issuer_context_message(
        application_context@,
        public_key_hash@,
        P::spec_name(),
        tau,
        k,
    ));
    shake256_32(message.as_slice())
}

/// Compare two byte strings in time independent of their contents.
///
/// Calls `subtle::ConstantTimeEq::ct_eq` on the slices and converts the
/// `Choice` to `bool`; subtle documents the result as one exactly when the
/// lengths match and every element is equal.
#[verifier::external_body]
fn ct_bytes_eq(left: &[u8], right: &[u8]) -> (equal: bool)
    ensures
        equal == (left@ == right@),
{
    bool::from(subtle::ConstantTimeEq::ct_eq(left, right))
}

/// Whether two GF(16) strings are equal, compared in constant time.
pub fn gf16_slices_equal(left: &[u8], right: &[u8]) -> (equal: bool)
    ensures
        equal == (left@ == right@),
{
    left.len() == right.len() && ct_bytes_eq(left, right)
}

/// A valid proof and its exact durable storage key.
#[derive(Clone, Copy, Debug, PartialEq, Eq)]
pub struct VerifiedPresentation {
    pub(crate) scope: [u8; 32],
    pub(crate) tag: [u8; 32],
}

impl VerifiedPresentation {
    /// The storage scope of this presentation.
    pub closed spec fn spec_scope(self) -> Seq<u8> {
        self.scope@
    }

    /// The tag of this presentation.
    pub closed spec fn spec_tag(self) -> Seq<u8> {
        self.tag@
    }

    /// Effective scope binding issuer, credential context, and presentation
    /// context.
    pub fn storage_scope(self) -> (scope: [u8; 32])
        ensures
            scope@ == self.spec_scope(),
    {
        self.scope
    }

    /// Deterministic tag to insert within [`Self::storage_scope`].
    pub fn tag(self) -> (tag: [u8; 32])
        ensures
            tag@ == self.spec_tag(),
    {
        self.tag
    }
}

/// Why the proof backend rejected an encoded proof.
#[derive(Debug, Clone, Copy, PartialEq, Eq, Structural)]
pub enum ProofDecodeError {
    /// The proof exceeds the backend's size limit.
    TooLarge,
    /// The proof bytes are malformed.
    InvalidEncoding,
    /// The proof uses an unsupported format version.
    UnsupportedVersion,
}

/// The wire error reported for a rejected proof encoding.
pub open spec fn proof_wire_error(error: ProofDecodeError) -> WireError {
    match error {
        ProofDecodeError::TooLarge => WireError::TooLarge,
        ProofDecodeError::InvalidEncoding => WireError::InvalidEncoding,
        ProofDecodeError::UnsupportedVersion => WireError::UnsupportedVersion,
    }
}

/// Accept proof bytes that the backend parsed, or report why it did not.
pub fn decode_proof(bytes: &[u8], outcome: Result<(), ProofDecodeError>) -> (proof: Result<Vec<u8>, WireError>)
    ensures
        match outcome {
            Ok(()) => proof matches Ok(p) && p@ == bytes@,
            Err(error) => proof == Err::<Vec<u8>, WireError>(proof_wire_error(error)),
        },
{
    match outcome {
        Ok(()) => Ok(copy_bytes(bytes)),
        Err(ProofDecodeError::TooLarge) => Err(WireError::TooLarge),
        Err(ProofDecodeError::InvalidEncoding) => Err(WireError::InvalidEncoding),
        Err(ProofDecodeError::UnsupportedVersion) => Err(WireError::UnsupportedVersion),
    }
}

/// An issuer key envelope: the profile byte, the application context, and
/// the encoded MAYO key, each byte string length-prefixed.
pub open spec fn key_envelope_bytes(
    artifact: u8,
    parameter_set: u8,
    profile: PerformanceProfile,
    application_context: Seq<u8>,
    key: Seq<u8>,
) -> Seq<u8> {
    header_bytes(artifact, parameter_set) + seq![profile_wire_id(profile)] + framed_bytes(
        application_context,
    ) + framed_bytes(key)
}

/// What decoding an issuer key envelope yields: the profile, the
/// application context, and the encoded MAYO key.
pub open spec fn spec_decode_key_envelope(input: Seq<u8>, artifact: u8, parameter_set: u8) -> Result<
    (PerformanceProfile, Seq<u8>, Seq<u8>),
    WireError,
> {
    match header_check(input, artifact, parameter_set) {
        Err(error) => Err(error),
        Ok(()) => if input.len() < HEADER_BYTES + 1 {
            Err(WireError::InvalidEncoding)
        } else {
            match profile_from_wire_id(input[HEADER_BYTES as int]) {
                Err(error) => Err(error),
                Ok(profile) => match framed_at(input, HEADER_BYTES + 1) {
                    None => Err(WireError::InvalidEncoding),
                    Some(application_context) => if application_context.len()
                        > MAX_APPLICATION_CONTEXT_BYTES {
                        Err(WireError::InvalidEncoding)
                    } else {
                        match framed_at(input, HEADER_BYTES + 5 + application_context.len()) {
                            None => Err(WireError::InvalidEncoding),
                            Some(key) => if HEADER_BYTES + 9 + application_context.len() + key.len()
                                != input.len() {
                                Err(WireError::InvalidEncoding)
                            } else {
                                Ok((profile, application_context, key))
                            },
                        }
                    },
                },
            }
        },
    }
}

/// The views of a decoded key envelope.
pub open spec fn key_envelope_view(
    fields: Result<(PerformanceProfile, Vec<u8>, Vec<u8>), WireError>,
) -> Result<(PerformanceProfile, Seq<u8>, Seq<u8>), WireError> {
    match fields {
        Ok((profile, application_context, key)) => Ok((profile, application_context@, key@)),
        Err(error) => Err(error),
    }
}

/// Decode an issuer key envelope.
pub fn decode_key_envelope(bytes: &[u8], artifact: u8, parameter_set: u8) -> (fields: Result<
    (PerformanceProfile, Vec<u8>, Vec<u8>),
    WireError,
>)
    ensures
        key_envelope_view(fields) == spec_decode_key_envelope(bytes@, artifact, parameter_set),
{
    let mut decoder = Decoder::new(bytes, artifact, parameter_set)?;
    let id = decoder.u8()?;
    let profile = PerformanceProfile::from_wire_id(id)?;
    let application_context = decoder.bytes()?;
    if application_context.len() > MAX_APPLICATION_CONTEXT_BYTES {
        return Err(WireError::InvalidEncoding);
    }
    let application_context = copy_bytes(application_context);
    let key = copy_bytes(decoder.bytes()?);
    decoder.finish()?;
    Ok((profile, application_context, key))
}

/// A key envelope decodes to exactly what was encoded.
pub proof fn lemma_key_envelope_roundtrip(
    artifact: u8,
    parameter_set: u8,
    profile: PerformanceProfile,
    application_context: Seq<u8>,
    key: Seq<u8>,
)
    requires
        application_context.len() <= MAX_APPLICATION_CONTEXT_BYTES,
        key.len() <= u32::MAX,
        key_envelope_bytes(artifact, parameter_set, profile, application_context, key).len()
            <= MAX_WIRE_BYTES,
    ensures
        spec_decode_key_envelope(
            key_envelope_bytes(artifact, parameter_set, profile, application_context, key),
            artifact,
            parameter_set,
        ) == Ok::<(PerformanceProfile, Seq<u8>, Seq<u8>), WireError>(
            (profile, application_context, key),
        ),
{
    let head = header_bytes(artifact, parameter_set) + seq![profile_wire_id(profile)];
    let input = key_envelope_bytes(artifact, parameter_set, profile, application_context, key);
    lemma_header_accepted(artifact, parameter_set, input.skip(HEADER_BYTES as int));
    assert(header_bytes(artifact, parameter_set) + input.skip(HEADER_BYTES as int) =~= input);
    assert(input[HEADER_BYTES as int] == profile_wire_id(profile));
    lemma_profile_wire_roundtrip(profile, 0);
    lemma_framed_roundtrip(head, application_context, framed_bytes(key));
    assert(input =~= head + framed_bytes(application_context) + framed_bytes(key));
    lemma_framed_roundtrip(head + framed_bytes(application_context), key, Seq::empty());
    assert(input =~= head + framed_bytes(application_context) + framed_bytes(key) + Seq::<u8>::empty());
    vstd::bytes::lemma_auto_spec_u32_to_from_le_bytes();
    let a = application_context.len() as int;
    assert(head.len() == HEADER_BYTES + 1);
    assert(framed_bytes(application_context).len() == 4 + a);
    assert(framed_at(input, HEADER_BYTES + 1) == Some(application_context));
    assert(framed_at(input, HEADER_BYTES + 5 + a) == Some(key));
    assert(input.len() == HEADER_BYTES + 9 + a + key.len());
}

/// Only the canonical encoding of its fields decodes as a key envelope.
pub proof fn lemma_key_envelope_canonical(input: Seq<u8>, artifact: u8, parameter_set: u8)
    requires
        spec_decode_key_envelope(input, artifact, parameter_set) is Ok,
    ensures
        ({
            let (profile, application_context, key) = spec_decode_key_envelope(
                input,
                artifact,
                parameter_set,
            )->Ok_0;
            input == key_envelope_bytes(artifact, parameter_set, profile, application_context, key)
        }),
{
    vstd::bytes::lemma_auto_spec_u32_to_from_le_bytes();
    let (profile, application_context, key) = spec_decode_key_envelope(input, artifact, parameter_set)->Ok_0;
    lemma_profile_wire_roundtrip(profile, input[HEADER_BYTES as int]);
    let a = application_context.len() as int;
    assert(input.subrange(HEADER_BYTES + 1, HEADER_BYTES + 5) == spec_u32_to_le_bytes(a as u32));
    assert(input.subrange(HEADER_BYTES + 5 + a, HEADER_BYTES + 9 + a) == spec_u32_to_le_bytes(
        key.len() as u32,
    ));
    assert(input.take(4) =~= MAGIC@);
    assert(input =~= key_envelope_bytes(artifact, parameter_set, profile, application_context, key));
}

/// Issuer public key: the encoded MAYO verification key, the protocol
/// context derived from it, the VOLE profile, and the application label.
///
/// Unlike ARC(P-256), this construction makes presentations publicly
/// verifiable.
pub struct PublicKey<P: ArcParams> {
    pub(crate) mayo_key: Vec<u8>,
    pub(crate) context: [u8; 32],
    pub(crate) profile: PerformanceProfile,
    pub(crate) application_context: Vec<u8>,
    pub(crate) params: PhantomData<P>,
}

impl<P: ArcParams> PublicKey<P> {
    /// The application label and the encoded key fit their length
    /// prefixes.
    #[verifier::type_invariant]
    pub open spec fn well_formed(self) -> bool {
        &&& self.spec_application_context().len() <= MAX_APPLICATION_CONTEXT_BYTES
        &&& self.spec_mayo_key().len() <= u32::MAX
    }

    /// The encoded MAYO public key.
    pub closed spec fn spec_mayo_key(&self) -> Seq<u8> {
        self.mayo_key@
    }

    /// The protocol context.
    pub closed spec fn spec_context(&self) -> Seq<u8> {
        self.context@
    }

    /// The VOLE profile.
    pub closed spec fn spec_profile(&self) -> PerformanceProfile {
        self.profile
    }

    /// The application and key-epoch label.
    pub closed spec fn spec_application_context(&self) -> Seq<u8> {
        self.application_context@
    }

    /// Bind an encoded MAYO key, its digest, a profile with tree geometry
    /// `tau` and `k`, and an application label into an issuer public key.
    pub fn assemble(
        mayo_key: Vec<u8>,
        public_key_hash: &[u8; 32],
        profile: PerformanceProfile,
        tau: u64,
        k: u64,
        application_context: &[u8],
    ) -> (key: Self)
        requires
            application_context@.len() <= MAX_APPLICATION_CONTEXT_BYTES,
            mayo_key@.len() <= u32::MAX,
        ensures
            key.spec_mayo_key() == mayo_key@,
            key.spec_profile() == profile,
            key.spec_application_context() == application_context@,
            key.spec_context() == sha3_shake256_32(
                issuer_context_message(
                    application_context@,
                    public_key_hash@,
                    P::spec_name(),
                    tau,
                    k,
                ),
            ),
    {
        let context = derive_issuer_context::<P>(application_context, public_key_hash, tau, k);
        PublicKey {
            mayo_key,
            context,
            profile,
            application_context: copy_bytes(application_context),
            params: PhantomData,
        }
    }

    /// The protocol context binding the key, application domain, parameter
    /// set, protocol version, and VOLE profile.
    pub fn context(&self) -> (context: [u8; 32])
        ensures
            context@ == self.spec_context(),
    {
        self.context
    }

    /// VOLE proof-size/latency profile bound into this key.
    pub fn performance_profile(&self) -> (profile: PerformanceProfile)
        ensures
            profile == self.spec_profile(),
    {
        self.profile
    }

    /// Application and key-epoch label bound into this issuer key.
    pub fn application_context(&self) -> (label: &[u8])
        ensures
            label@ == self.spec_application_context(),
    {
        self.application_context.as_slice()
    }

    /// The encoded MAYO public key.
    pub fn mayo_key(&self) -> (key: &[u8])
        ensures
            key@ == self.spec_mayo_key(),
    {
        self.mayo_key.as_slice()
    }

    /// Encode the public key canonically.
    pub fn to_bytes(&self) -> (bytes: Vec<u8>)
        ensures
            bytes@ == key_envelope_bytes(
                WIRE_PUBLIC_KEY,
                P::spec_wire_id(),
                self.spec_profile(),
                self.spec_application_context(),
                self.spec_mayo_key(),
            ),
    {
        proof {
            use_type_invariant(self);
        }
        let mut output: Vec<u8> = Vec::new();
        header(&mut output, WIRE_PUBLIC_KEY, P::wire_id());
        output.push(self.profile.wire_id());
        put_bytes(&mut output, self.application_context.as_slice());
        put_bytes(&mut output, self.mayo_key.as_slice());
        output
    }

    /// Decode a canonical public-key envelope into its profile,
    /// application context, and encoded MAYO key; the key itself is parsed
    /// and hashed by the MAYO implementation before [`Self::assemble`].
    pub fn decode_fields(bytes: &[u8]) -> (fields: Result<(PerformanceProfile, Vec<u8>, Vec<u8>), WireError>)
        ensures
            key_envelope_view(fields) == spec_decode_key_envelope(
                bytes@,
                WIRE_PUBLIC_KEY,
                P::spec_wire_id(),
            ),
    {
        decode_key_envelope(bytes, WIRE_PUBLIC_KEY, P::wire_id())
    }
}

impl<P: ArcParams> Clone for PublicKey<P> {
    fn clone(&self) -> (copy: Self)
        ensures
            copy.spec_mayo_key() == self.spec_mayo_key(),
            copy.spec_context() == self.spec_context(),
            copy.spec_profile() == self.spec_profile(),
            copy.spec_application_context() == self.spec_application_context(),
    {
        proof {
            use_type_invariant(self);
        }
        PublicKey {
            mayo_key: copy_bytes(self.mayo_key.as_slice()),
            context: self.context,
            profile: self.profile,
            application_context: copy_bytes(self.application_context.as_slice()),
            params: PhantomData,
        }
    }
}

/// How a presentation request is screened before any proof is made: the
/// issuer and credential context must match, the limit must be nonzero, a
/// new context needs room, and the context's next nonce must be below the
/// limit.
pub open spec fn presentation_screen(
    issuer_matches: bool,
    context_matches: bool,
    limit: u32,
    known_context: bool,
    contexts: nat,
    nonce: u32,
) -> Result<(), Error> {
    if !issuer_matches {
        Err(Error::WrongIssuer)
    } else if !context_matches {
        Err(Error::WrongCredentialContext)
    } else if limit == 0 {
        Err(Error::InvalidPresentationLimit)
    } else if !known_context && contexts >= MAX_PRESENTATION_CONTEXTS {
        Err(Error::TooManyPresentationContexts)
    } else if nonce >= limit {
        Err(Error::RateLimitReached)
    } else {
        Ok(())
    }
}

/// The views of an optional proof.
pub open spec fn proof_view(answer: Option<Vec<u8>>) -> Option<Seq<u8>> {
    match answer {
        Some(bytes) => Some(bytes@),
        None => None,
    }
}

/// The prover was handed a presentation circuit with these public inputs,
/// this statement and this witness, and answered `outcome`.
pub open spec fn presentation_proved<P: ArcParams, F: FnOnce(&PresentationCircuit<P>, &[u8], &[bool]) -> Option<Vec<u8>>>(
    prove: F,
    credential_scope: Seq<u8>,
    presentation_scope: Seq<u8>,
    limit: u32,
    tag: Seq<u8>,
    statement: Seq<u8>,
    witness: Seq<bool>,
    outcome: Option<Seq<u8>>,
) -> bool {
    exists|circuit: &PresentationCircuit<P>, s: &[u8], w: &[bool], answer: Option<Vec<u8>>|
        circuit.credential_scope@ == credential_scope && circuit.presentation_scope@
            == presentation_scope && circuit.presentation_limit == limit && circuit.tag@ == tag
            && s@ == statement && w@ == witness && call_ensures(prove, (circuit, s, w), answer)
            && proof_view(answer) == outcome
}

/// Client-held anonymous credential plus a counter for each presentation
/// context it has used.
///
/// The counter map is privacy-critical. Persist the updated credential after
/// [`Credential::present`] succeeds and before transmitting the returned
/// presentation. Rollback can repeat a tag and link the retry to an earlier
/// presentation. A correct server rejects the duplicate, so rollback does not
/// increase the cryptographic limit.
pub struct Credential<P: ArcParams> {
    pub(crate) issuer_context: [u8; 32],
    pub(crate) credential_context: CredentialContext,
    pub(crate) signature: Vec<u8>,
    pub(crate) secret: [u8; 32],
    pub(crate) hiding_nonce: [u8; 32],
    pub(crate) salt: [u8; SALT_BYTES],
    pub(crate) next_nonces: Counters,
    pub(crate) params: PhantomData<P>,
}

impl<P: ArcParams> Credential<P> {
    /// The issuer context this credential belongs to.
    pub closed spec fn spec_issuer_context(&self) -> Seq<u8> {
        self.issuer_context@
    }

    /// The authenticated credential context.
    pub closed spec fn spec_credential_context(&self) -> CredentialContext {
        self.credential_context
    }

    /// The MAYO preimage, one GF(16) element per byte.
    pub closed spec fn spec_signature(&self) -> Seq<u8> {
        self.signature@
    }

    /// The hidden credential secret.
    pub closed spec fn spec_secret(&self) -> Seq<u8> {
        self.secret@
    }

    /// The commitment hiding nonce.
    pub closed spec fn spec_hiding_nonce(&self) -> Seq<u8> {
        self.hiding_nonce@
    }

    /// The signer salt.
    pub closed spec fn spec_salt(&self) -> Seq<u8> {
        self.salt@
    }

    /// The per-context counters, in ascending context order.
    pub closed spec fn spec_counters(&self) -> Seq<(Seq<u8>, u32)> {
        self.next_nonces@
    }

    /// The screening outcome of a presentation request.
    pub open spec fn spec_screen(&self, public: &PublicKey<P>, challenge: PresentationChallenge) -> Result<
        (),
        Error,
    > {
        presentation_screen(
            self.spec_issuer_context() == public.spec_context(),
            self.spec_credential_context() == challenge.spec_credential_context(),
            challenge.spec_limit(),
            has_context(self.spec_counters(), challenge.spec_presentation_context().bytes()),
            self.spec_counters().len(),
            nonce_of(self.spec_counters(), challenge.spec_presentation_context().bytes()),
        )
    }

    /// Public issuance context authenticated by this credential.
    pub fn credential_context(&self) -> (context: CredentialContext)
        ensures
            context == self.spec_credential_context(),
    {
        self.credential_context
    }

    /// Next hidden nonce for a presentation context, or zero if unused.
    pub fn next_nonce(&self, context: PresentationContext) -> (nonce: u32)
        ensures
            nonce == nonce_of(self.spec_counters(), context.bytes()),
            valid_counters(self.spec_counters(), MAX_PRESENTATION_CONTEXTS as nat),
    {
        proof {
            use_type_invariant(&self.next_nonces);
        }
        let key = context.digest();
        self.next_nonces.get(&key)
    }

    /// Number of scoped counter records retained by this credential.
    pub fn context_count(&self) -> (count: usize)
        ensures
            count == self.spec_counters().len(),
            count <= MAX_PRESENTATION_CONTEXTS,
            valid_counters(self.spec_counters(), MAX_PRESENTATION_CONTEXTS as nat),
    {
        self.next_nonces.len()
    }

    /// Produce a proof and deterministic tag for one scoped use.
    ///
    /// `prove` runs the VOLE-in-the-head prover on the circuit, statement,
    /// and witness, and answers `None` when proof construction fails. The
    /// local counter is advanced only after proof construction succeeds.
    /// Persist the updated credential before sending the presentation.
    ///
    /// # Errors
    ///
    /// Returns an [`Error`] when the issuer or credential context differs,
    /// the limit is invalid or exhausted, the context-state bound is reached,
    /// or the proof backend fails.
    pub fn present<F: FnOnce(&PresentationCircuit<P>, &[u8], &[bool]) -> Option<Vec<u8>>>(
        &mut self,
        public: &PublicKey<P>,
        challenge: &PresentationChallenge,
        prove: F,
    ) -> (result: Result<Presentation<P>, Error>)
        requires
            forall|circuit: &PresentationCircuit<P>, s: &[u8], w: &[bool]| call_requires(prove, (circuit, s, w)),
        ensures
            final(self).spec_issuer_context() == old(self).spec_issuer_context(),
            final(self).spec_credential_context() == old(self).spec_credential_context(),
            final(self).spec_signature() == old(self).spec_signature(),
            final(self).spec_secret() == old(self).spec_secret(),
            final(self).spec_hiding_nonce() == old(self).spec_hiding_nonce(),
            final(self).spec_salt() == old(self).spec_salt(),
            result is Err ==> final(self).spec_counters() == old(self).spec_counters(),
            valid_counters(final(self).spec_counters(), MAX_PRESENTATION_CONTEXTS as nat),
            old(self).spec_screen(public, *challenge) matches Err(error) ==> result == Err::<
                Presentation<P>,
                Error,
            >(error),
            old(self).spec_screen(public, *challenge) is Ok ==> ({
                let context = challenge.spec_presentation_context().bytes();
                let nonce = nonce_of(old(self).spec_counters(), context);
                let credential_scope = spec_credential_scope(
                    old(self).spec_issuer_context(),
                    old(self).spec_credential_context().bytes(),
                );
                let scope = spec_presentation_scope(
                    old(self).spec_issuer_context(),
                    old(self).spec_credential_context().bytes(),
                    context,
                );
                let tag = spec_derive_tag(old(self).spec_secret(), scope, nonce);
                let statement = spec_presentation_statement(
                    P::spec_name(),
                    old(self).spec_issuer_context(),
                    *challenge,
                    tag,
                );
                let witness = presentation_witness(
                    P::spec_m(),
                    credential_scope,
                    scope,
                    challenge.spec_limit(),
                    old(self).spec_signature(),
                    old(self).spec_secret(),
                    old(self).spec_hiding_nonce(),
                    old(self).spec_salt(),
                    nonce,
                );
                &&& result is Err ==> result == Err::<Presentation<P>, Error>(Error::InvalidProof)
                    && presentation_proved(
                    prove,
                    credential_scope,
                    scope,
                    challenge.spec_limit(),
                    tag,
                    statement,
                    witness,
                    None,
                )
                &&& result matches Ok(presentation) ==> {
                    &&& presentation.spec_tag() == tag
                    &&& presentation_proved(
                        prove,
                        credential_scope,
                        scope,
                        challenge.spec_limit(),
                        tag,
                        statement,
                        witness,
                        Some(presentation.spec_proof()),
                    )
                    &&& nonce < challenge.spec_limit()
                    &&& presentation_step(
                        old(self).spec_counters(),
                        final(self).spec_counters(),
                        context,
                        challenge.spec_limit(),
                    )
                    &&& forall|c: Seq<u8>| #[trigger] nonce_of(final(self).spec_counters(), c) == if c
                        == context {
                        (nonce + 1) as u32
                    } else {
                        nonce_of(old(self).spec_counters(), c)
                    }
                    &&& forall|c: Seq<u8>| #[trigger] has_context(final(self).spec_counters(), c) == (
                    has_context(old(self).spec_counters(), c) || c == context)
                    &&& final(self).spec_counters().len() == old(self).spec_counters().len() + if has_context(
                        old(self).spec_counters(),
                        context,
                    ) {
                        0int
                    } else {
                        1int
                    }
                }
            }),
    {
        proof {
            use_type_invariant(&self.next_nonces);
        }
        let issuer_context = public.context();
        if !digests_eq(&self.issuer_context, &issuer_context) {
            return Err(Error::WrongIssuer);
        }
        let own_context = self.credential_context.digest();
        let challenge_context = challenge.credential_context().digest();
        if !digests_eq(&own_context, &challenge_context) {
            proof {
                if self.credential_context == challenge.spec_credential_context() {
                    assert(own_context@ == challenge_context@);
                }
            }
            return Err(Error::WrongCredentialContext);
        }
        proof {
            CredentialContext::lemma_bytes_determine(
                self.credential_context,
                challenge.spec_credential_context(),
            );
        }
        let limit = challenge.limit();
        if limit == 0 {
            return Err(Error::InvalidPresentationLimit);
        }
        let context_key = challenge.presentation_context().digest();
        let is_new_context = !self.next_nonces.contains(&context_key);
        if is_new_context && self.next_nonces.len() >= MAX_PRESENTATION_CONTEXTS {
            return Err(Error::TooManyPresentationContexts);
        }
        let nonce = self.next_nonces.get(&context_key);
        if nonce >= limit {
            return Err(Error::RateLimitReached);
        }
        let credential_scope = credential_scope(&self.issuer_context, &own_context);
        let scope = presentation_scope(&self.issuer_context, &own_context, &context_key);
        let tag = derive_tag(&self.secret, &scope, nonce);
        let circuit = PresentationCircuit::<P> {
            credential_scope,
            presentation_scope: scope,
            presentation_limit: limit,
            tag,
            params: PhantomData,
        };
        let secrets = PresentationSecrets {
            signature: self.signature.as_slice(),
            secret: &self.secret,
            hiding_nonce: &self.hiding_nonce,
            salt: &self.salt,
            presentation_nonce: nonce,
        };
        let mut witness = circuit.witness(&secrets);
        let statement = presentation_statement::<P>(&self.issuer_context, challenge, &tag);
        let answer = prove(&circuit, statement.as_slice(), witness.as_slice());
        proof {
            assert(presentation_proved(
                prove,
                credential_scope@,
                scope@,
                limit,
                tag@,
                statement@,
                witness@,
                proof_view(answer),
            ));
        }
        wipe_bits(&mut witness);
        match answer {
            None => Err(Error::InvalidProof),
            Some(proof_bytes) => {
                self.next_nonces.set(context_key, nonce + 1);
                Ok(Presentation { tag, proof: proof_bytes, params: PhantomData })
            },
        }
    }
}

/// Non-interactive credential presentation.
#[derive(Debug)]
pub struct Presentation<P: ArcParams> {
    pub(crate) tag: [u8; 32],
    pub(crate) proof: Vec<u8>,
    pub(crate) params: PhantomData<P>,
}

impl<P: ArcParams> Presentation<P> {
    /// The presented tag.
    pub closed spec fn spec_tag(&self) -> Seq<u8> {
        self.tag@
    }

    /// The encoded proof.
    pub closed spec fn spec_proof(&self) -> Seq<u8> {
        self.proof@
    }

    /// Deterministic tag consumed by the relying party's scoped store.
    pub fn tag(&self) -> (tag: [u8; 32])
        ensures
            tag@ == self.spec_tag(),
    {
        self.tag
    }

    /// Zero-knowledge possession, tag-derivation, and range proof.
    pub fn proof_bytes(&self) -> (bytes: &[u8])
        ensures
            bytes@ == self.spec_proof(),
    {
        self.proof.as_slice()
    }
}

impl<P: ArcParams> Clone for Presentation<P> {
    fn clone(&self) -> (copy: Self)
        ensures
            copy.spec_tag() == self.spec_tag(),
            copy.spec_proof() == self.spec_proof(),
    {
        Presentation { tag: self.tag, proof: copy_bytes(self.proof.as_slice()), params: PhantomData }
    }
}

/// The proof verifier was handed a presentation circuit with these public
/// inputs, this statement and these proof bytes, and answered `accepted`.
pub open spec fn presentation_checked<P: ArcParams, F: FnOnce(&PresentationCircuit<P>, &[u8], &[u8]) -> bool>(
    check: F,
    credential_scope: Seq<u8>,
    presentation_scope: Seq<u8>,
    limit: u32,
    tag: Seq<u8>,
    statement: Seq<u8>,
    proof_bytes: Seq<u8>,
    accepted: bool,
) -> bool {
    exists|circuit: &PresentationCircuit<P>, s: &[u8], p: &[u8]|
        circuit.credential_scope@ == credential_scope && circuit.presentation_scope@
            == presentation_scope && circuit.presentation_limit == limit && circuit.tag@ == tag
            && s@ == statement && p@ == proof_bytes && call_ensures(check, (circuit, s, p), accepted)
}

/// What checking a presentation against a challenge decides: the scope
/// the tag is stored under, or why it is refused.
pub open spec fn proof_only_outcome<P: ArcParams, F: FnOnce(&PresentationCircuit<P>, &[u8], &[u8]) -> bool>(
    check: F,
    issuer_context: Seq<u8>,
    challenge: PresentationChallenge,
    tag: Seq<u8>,
    proof_bytes: Seq<u8>,
    result: Result<VerifiedPresentation, Error>,
) -> bool {
    let credential = challenge.spec_credential_context().bytes();
    let context = challenge.spec_presentation_context().bytes();
    let credential_scope = spec_credential_scope(issuer_context, credential);
    let scope = spec_presentation_scope(issuer_context, credential, context);
    let statement = spec_presentation_statement(P::spec_name(), issuer_context, challenge, tag);
    if challenge.spec_limit() == 0 {
        result == Err::<VerifiedPresentation, Error>(Error::InvalidPresentationLimit)
    } else {
        exists|accepted: bool|
            presentation_checked(
                check,
                credential_scope,
                scope,
                challenge.spec_limit(),
                tag,
                statement,
                proof_bytes,
                accepted,
            ) && if accepted {
                result matches Ok(verified) && verified.spec_scope() == scope && verified.spec_tag()
                    == tag
            } else {
                result == Err::<VerifiedPresentation, Error>(Error::InvalidProof)
            }
    }
}

impl<P: ArcParams> PublicKey<P> {
    /// Verify a presentation proof without consuming its deterministic tag.
    ///
    /// `check` runs the VOLE-in-the-head verifier on the circuit, statement,
    /// and proof bytes. Most applications should use [`Verifier::verify`]
    /// instead: proof-only verification does not enforce the rate limit, and
    /// a successful tag must still be inserted atomically into a durable
    /// [`TagStore`].
    ///
    /// # Errors
    ///
    /// Returns [`Error::InvalidPresentationLimit`] for a zero limit or
    /// [`Error::InvalidProof`] when the presentation proof is invalid.
    pub fn verify_proof_only<F: FnOnce(&PresentationCircuit<P>, &[u8], &[u8]) -> bool>(
        &self,
        challenge: &PresentationChallenge,
        presentation: &Presentation<P>,
        check: F,
    ) -> (result: Result<VerifiedPresentation, Error>)
        requires
            forall|circuit: &PresentationCircuit<P>, s: &[u8], p: &[u8]| call_requires(check, (circuit, s, p)),
        ensures
            proof_only_outcome(
                check,
                self.spec_context(),
                *challenge,
                presentation.spec_tag(),
                presentation.spec_proof(),
                result,
            ),
    {
        let limit = challenge.limit();
        if limit == 0 {
            return Err(Error::InvalidPresentationLimit);
        }
        let credential_context = challenge.credential_context().digest();
        let presentation_context = challenge.presentation_context().digest();
        let credential_scope = credential_scope(&self.context, &credential_context);
        let scope = presentation_scope(&self.context, &credential_context, &presentation_context);
        let circuit = PresentationCircuit::<P> {
            credential_scope,
            presentation_scope: scope,
            presentation_limit: limit,
            tag: presentation.tag,
            params: PhantomData,
        };
        let statement = presentation_statement::<P>(&self.context, challenge, &presentation.tag);
        let accepted = check(&circuit, statement.as_slice(), presentation.proof.as_slice());
        proof {
            assert(presentation_checked(
                check,
                credential_scope@,
                scope@,
                limit,
                presentation.tag@,
                statement@,
                presentation.proof@,
                accepted,
            ));
        }
        if !accepted {
            return Err(Error::InvalidProof);
        }
        Ok(VerifiedPresentation { scope, tag: presentation.tag })
    }
}

/// Stateful verifier coupling proof verification to atomic tag consumption.
pub struct Verifier<P: ArcParams, S: TagStore> {
    pub(crate) public: PublicKey<P>,
    pub(crate) store: S,
}

impl<P: ArcParams> Verifier<P, MemoryTagStore> {
    /// Construct a process-local verifier for tests and examples.
    ///
    /// The built-in store is not crash-safe and must not be used for a
    /// production rate limit.
    pub fn new(public: PublicKey<P>) -> (verifier: Self)
        ensures
            verifier.spec_public() == public,
            verifier.spec_store().accepted() == Set::<(Seq<u8>, Seq<u8>)>::empty(),
    {
        let store = MemoryTagStore::default();
        proof {
            assert(store.entries().to_set() =~= Set::<(Seq<u8>, Seq<u8>)>::empty());
        }
        Verifier { public, store }
    }

    /// Number of accepted tags in the process-local store.
    pub fn accepted_count(&self) -> (count: usize)
        ensures
            count == self.spec_store().accepted().len(),
    {
        self.store.len()
    }
}

impl<P: ArcParams, S: TagStore> Verifier<P, S> {
    /// The verifier's public key.
    pub closed spec fn spec_public(&self) -> PublicKey<P> {
        self.public
    }

    /// The verifier's tag store.
    pub closed spec fn spec_store(&self) -> S {
        self.store
    }

    /// Construct a verifier with an application-supplied durable store.
    pub fn with_store(public: PublicKey<P>, store: S) -> (verifier: Self)
        ensures
            verifier.spec_public() == public,
            verifier.spec_store() == store,
    {
        Verifier { public, store }
    }

    /// Borrow the verifier public key.
    pub fn public_key(&self) -> (public: &PublicKey<P>)
        ensures
            *public == self.spec_public(),
    {
        &self.public
    }

    /// Borrow the tag store.
    pub fn store(&self) -> (store: &S)
        ensures
            *store == self.spec_store(),
    {
        &self.store
    }

    /// Mutably borrow the tag store.
    pub fn store_mut(&mut self) -> (store: &mut S)
        ensures
            *store == old(self).spec_store(),
            final(self).spec_store() == *final(store),
            final(self).spec_public() == old(self).spec_public(),
    {
        &mut self.store
    }

    /// Verify a presentation and atomically consume its scoped tag.
    ///
    /// `check` runs the VOLE-in-the-head verifier as in
    /// [`PublicKey::verify_proof_only`]. The caller may perform the protected
    /// action only after this returns successfully.
    ///
    /// # Errors
    ///
    /// Returns a proof-validation [`Error`], [`Error::TagAlreadyUsed`] for a
    /// duplicate, or the error returned by the configured [`TagStore`].
    pub fn verify<F: FnOnce(&PresentationCircuit<P>, &[u8], &[u8]) -> bool>(
        &mut self,
        challenge: &PresentationChallenge,
        presentation: &Presentation<P>,
        check: F,
    ) -> (result: Result<VerifiedPresentation, Error>)
        requires
            forall|circuit: &PresentationCircuit<P>, s: &[u8], p: &[u8]| call_requires(check, (circuit, s, p)),
        ensures
            final(self).spec_public() == old(self).spec_public(),
            exists|proof_result: Result<VerifiedPresentation, Error>|
                {
                    &&& proof_only_outcome(
                        check,
                        old(self).spec_public().spec_context(),
                        *challenge,
                        presentation.spec_tag(),
                        presentation.spec_proof(),
                        proof_result,
                    )
                    &&& proof_result matches Err(error) ==> result == Err::<
                        VerifiedPresentation,
                        Error,
                    >(error) && final(self).spec_store() == old(self).spec_store()
                    &&& proof_result matches Ok(verified) ==> {
                        let key = (verified.spec_scope(), verified.spec_tag());
                        &&& exists|answer: Result<bool, Error>|
                            #[trigger] store_answered(old(self).spec_store(), final(self).spec_store(), key, answer)
                                && result == settled(verified, answer)
                        &&& result matches Ok(accepted) ==> accepted == verified
                            && !old(self).spec_store().accepted().contains(key)
                            && final(self).spec_store().accepted() == old(self).spec_store().accepted().insert(key)
                        &&& old(self).spec_store().accepted().contains(key) ==> result != Ok::<
                            VerifiedPresentation,
                            Error,
                        >(verified)
                        &&& old(self).spec_store().never_fails() ==> if old(self).spec_store().accepted().contains(
                            key,
                        ) {
                            result == Err::<VerifiedPresentation, Error>(Error::TagAlreadyUsed)
                        } else {
                            result == Ok::<VerifiedPresentation, Error>(verified)
                        }
                    }
                },
    {
        let proof_result = self.public.verify_proof_only(challenge, presentation, check);
        assert(proof_only_outcome(
            check,
            old(self).spec_public().spec_context(),
            *challenge,
            presentation.spec_tag(),
            presentation.spec_proof(),
            proof_result,
        ));
        let ghost outcome = proof_result;
        let verified = match proof_result {
            Ok(verified) => verified,
            Err(error) => {
                return Err(error);
            },
        };
        let scope = verified.storage_scope();
        let tag = verified.tag();
        let ghost key = (verified.spec_scope(), verified.spec_tag());
        let ghost before = self.store;
        let answer = self.store.insert_if_absent(scope, tag);
        proof {
            assert(store_answered(before, self.store, key, answer));
        }
        let ghost kept = verified;
        let result = settle_insert(verified, answer);
        proof {
            assert(store_answered(before, self.store, key, answer) && result == settled(kept, answer));
            assert(outcome == Ok::<VerifiedPresentation, Error>(kept));
            assert(self.spec_store() == self.store && before == old(self).spec_store());
            assert(exists|answer: Result<bool, Error>|
                #[trigger] store_answered(old(self).spec_store(), self.spec_store(), key, answer)
                    && result == settled(kept, answer));
        }
        result
    }
}

/// Whether a tag store moved from `before` to `after` as its contract
/// allows when it gave `answer` for `key`: `Ok(true)` only for a new key,
/// which is then recorded; `Ok(false)` only for a recorded key, with
/// nothing changed; an error only from a store that may fail, with no
/// promise about the store.
pub open spec fn store_answered<S: TagStore>(
    before: S,
    after: S,
    key: (Seq<u8>, Seq<u8>),
    answer: Result<bool, Error>,
) -> bool {
    &&& answer == Ok::<bool, Error>(true) ==> !before.accepted().contains(key) && after.accepted()
        == before.accepted().insert(key)
    &&& answer == Ok::<bool, Error>(false) ==> before.accepted().contains(key) && after.accepted()
        == before.accepted()
    &&& before.never_fails() ==> answer is Ok
}

/// What a verifier answers for a valid presentation once its tag store
/// answered: the presentation on a fresh insert, `TagAlreadyUsed` for a
/// replay, and the store's own error otherwise.
pub open spec fn settled(verified: VerifiedPresentation, answer: Result<bool, Error>) -> Result<
    VerifiedPresentation,
    Error,
> {
    match answer {
        Ok(true) => Ok(verified),
        Ok(false) => Err(Error::TagAlreadyUsed),
        Err(error) => Err(error),
    }
}

/// Turn the tag store's answer for a valid presentation into the
/// verifier's result.
pub fn settle_insert(verified: VerifiedPresentation, inserted: Result<bool, Error>) -> (result: Result<
    VerifiedPresentation,
    Error,
>)
    ensures
        result == settled(verified, inserted),
{
    match inserted {
        Ok(true) => Ok(verified),
        Ok(false) => Err(Error::TagAlreadyUsed),
        Err(error) => Err(error),
    }
}

/// One successful presentation in `context` under `limit`: the context's
/// nonce was below the limit and advanced by one.
pub open spec fn presentation_step(
    before: Seq<(Seq<u8>, u32)>,
    after: Seq<(Seq<u8>, u32)>,
    context: Seq<u8>,
    limit: u32,
) -> bool {
    nonce_of(before, context) < limit && nonce_of(after, context) == nonce_of(before, context) + 1
}

/// The scoped rate limit: along a run of successful presentations in one
/// context, step `i` made under limit `limits[i]`, the context's nonce
/// grows by one per step, so with every limit at most `bound` the run has
/// at most `bound - n` steps from a starting nonce `n` (at most `bound` from
/// a fresh context), even when the limit was raised along the way; and no
/// two steps hash the same tag input.
pub proof fn lemma_rate_limit(
    history: Seq<Seq<(Seq<u8>, u32)>>,
    limits: Seq<u32>,
    bound: u32,
    context: Seq<u8>,
    secret: Seq<u8>,
    scope: Seq<u8>,
)
    requires
        history.len() >= 1,
        limits.len() == history.len() - 1,
        forall|i: int| 0 <= i < limits.len() ==> #[trigger] limits[i] <= bound,
        forall|i: int| 0 <= i < history.len() - 1 ==> presentation_step(
            #[trigger] history[i],
            history[i + 1],
            context,
            limits[i],
        ),
    ensures
        history.len() > 1 ==> nonce_of(history[0], context) + history.len() - 1 <= bound,
        forall|i: int, j: int|
            0 <= i < j < history.len() - 1 ==> spec_tag_message(
                secret,
                scope,
                nonce_of(#[trigger] history[i], context),
            ) != spec_tag_message(secret, scope, nonce_of(#[trigger] history[j], context)),
{
    if history.len() > 1 {
        let last = history.len() - 2;
        lemma_nonce_at_step(history, limits, context, last);
        assert(presentation_step(history[last], history[last + 1], context, limits[last]));
        assert(limits[last] <= bound);
    }
    assert forall|i: int, j: int|
        0 <= i < j < history.len() - 1 implies spec_tag_message(
        secret,
        scope,
        nonce_of(#[trigger] history[i], context),
    ) != spec_tag_message(secret, scope, nonce_of(#[trigger] history[j], context)) by {
        lemma_nonce_at_step(history, limits, context, i);
        lemma_nonce_at_step(history, limits, context, j);
        if spec_tag_message(secret, scope, nonce_of(history[i], context)) == spec_tag_message(
            secret,
            scope,
            nonce_of(history[j], context),
        ) {
            lemma_tag_message_nonce(
                secret,
                scope,
                nonce_of(history[i], context),
                nonce_of(history[j], context),
            );
        }
    }
}

/// Along a run of presentation steps, the nonce at step `i` is the
/// starting nonce plus `i`.
proof fn lemma_nonce_at_step(
    history: Seq<Seq<(Seq<u8>, u32)>>,
    limits: Seq<u32>,
    context: Seq<u8>,
    i: int,
)
    requires
        0 <= i < history.len(),
        limits.len() == history.len() - 1,
        forall|k: int| 0 <= k < history.len() - 1 ==> presentation_step(
            #[trigger] history[k],
            history[k + 1],
            context,
            limits[k],
        ),
    ensures
        nonce_of(history[i], context) == nonce_of(history[0], context) + i,
    decreases i,
{
    if i > 0 {
        lemma_nonce_at_step(history, limits, context, i - 1);
        assert(presentation_step(history[i - 1], history[i], context, limits[i - 1]));
    }
}

/// The proof backend parsed these proof bytes and answered `outcome`.
pub open spec fn proof_format_checked<F: FnOnce(&[u8]) -> Result<(), ProofDecodeError>>(
    check: F,
    proof_bytes: Seq<u8>,
    outcome: Result<(), ProofDecodeError>,
) -> bool {
    exists|p: &[u8]| p@ == proof_bytes && call_ensures(check, (p,), outcome)
}

/// The canonical encoding of a presentation.
pub open spec fn presentation_bytes(parameter_set: u8, tag: Seq<u8>, proof_bytes: Seq<u8>) -> Seq<u8> {
    header_bytes(WIRE_PRESENTATION, parameter_set) + tag + framed_bytes(proof_bytes)
}

/// The tag and proof bytes that a presentation envelope holds, before the
/// proof is parsed and trailing data is refused.
pub open spec fn presentation_fields(input: Seq<u8>, parameter_set: u8) -> Result<(Seq<u8>, Seq<u8>), WireError> {
    match header_check(input, WIRE_PRESENTATION, parameter_set) {
        Err(error) => Err(error),
        Ok(()) => match fixed_at(input, HEADER_BYTES as int, 32) {
            None => Err(WireError::InvalidEncoding),
            Some(tag) => match framed_at(input, HEADER_BYTES + 32) {
                None => Err(WireError::InvalidEncoding),
                Some(proof_bytes) => Ok((tag, proof_bytes)),
            },
        },
    }
}

/// What decoding a presentation yields: the envelope's error, the proof
/// backend's parse error, a trailing-data error, or the tag and proof.
pub open spec fn presentation_decoded<P: ArcParams, F: FnOnce(&[u8]) -> Result<(), ProofDecodeError>>(
    check: F,
    input: Seq<u8>,
    parameter_set: u8,
    result: Result<Presentation<P>, WireError>,
) -> bool {
    match presentation_fields(input, parameter_set) {
        Err(error) => result == Err::<Presentation<P>, WireError>(error),
        Ok((tag, proof_bytes)) => exists|outcome: Result<(), ProofDecodeError>|
            #![trigger proof_format_checked(check, proof_bytes, outcome)]
            {
                &&& proof_format_checked(check, proof_bytes, outcome)
                &&& match outcome {
                    Err(error) => result == Err::<Presentation<P>, WireError>(proof_wire_error(error)),
                    Ok(()) => if HEADER_BYTES + 36 + proof_bytes.len() != input.len() {
                        result == Err::<Presentation<P>, WireError>(WireError::InvalidEncoding)
                    } else {
                        result matches Ok(presentation) && presentation.spec_tag() == tag
                            && presentation.spec_proof() == proof_bytes
                    },
                }
            },
    }
}

impl<P: ArcParams> Presentation<P> {
    /// Encode this network presentation canonically.
    pub fn to_bytes(&self) -> (bytes: Vec<u8>)
        requires
            self.spec_proof().len() <= u32::MAX,
        ensures
            bytes@ == presentation_bytes(P::spec_wire_id(), self.spec_tag(), self.spec_proof()),
    {
        let mut output: Vec<u8> = Vec::new();
        header(&mut output, WIRE_PRESENTATION, P::wire_id());
        extend_bytes(&mut output, vstd::array::array_as_slice(&self.tag));
        put_bytes(&mut output, self.proof.as_slice());
        output
    }

    /// Decode a canonical presentation; `check` parses the proof bytes with
    /// the proof backend.
    ///
    /// # Errors
    ///
    /// Returns [`WireError`] when the envelope, suite, proof, or trailing data
    /// is invalid.
    pub fn from_bytes<F: FnOnce(&[u8]) -> Result<(), ProofDecodeError>>(bytes: &[u8], check: F) -> (result: Result<Self, WireError>)
        requires
            forall|p: &[u8]| call_requires(check, (p,)),
        ensures
            presentation_decoded(check, bytes@, P::spec_wire_id(), result),
    {
        let mut decoder = Decoder::new(bytes, WIRE_PRESENTATION, P::wire_id())?;
        let tag: [u8; 32] = decoder.array()?;
        let encoded = decoder.bytes()?;
        assert(presentation_fields(bytes@, P::spec_wire_id()) == Ok::<(Seq<u8>, Seq<u8>), WireError>(
            (tag@, encoded@),
        ));
        let outcome = check(encoded);
        assert(proof_format_checked(check, encoded@, outcome));
        assert(proof_format_checked(check, presentation_fields(bytes@, P::spec_wire_id())->Ok_0.1, outcome));
        let proof_bytes = match decode_proof(encoded, outcome) {
            Ok(proof_bytes) => proof_bytes,
            Err(error) => {
                assert(presentation_decoded(check, bytes@, P::spec_wire_id(), Err::<Self, WireError>(error)));
                return Err(error);
            },
        };
        match decoder.finish() {
            Ok(()) => {},
            Err(error) => {
                assert(presentation_decoded(check, bytes@, P::spec_wire_id(), Err::<Self, WireError>(error)));
                return Err(error);
            },
        }
        Ok(Presentation { tag, proof: proof_bytes, params: PhantomData })
    }
}

/// A presentation's fields decode back from its encoding, and nothing
/// trails them.
pub proof fn lemma_presentation_roundtrip(parameter_set: u8, tag: Seq<u8>, proof_bytes: Seq<u8>)
    requires
        tag.len() == 32,
        proof_bytes.len() <= u32::MAX,
        presentation_bytes(parameter_set, tag, proof_bytes).len() <= MAX_WIRE_BYTES,
    ensures
        presentation_fields(presentation_bytes(parameter_set, tag, proof_bytes), parameter_set)
            == Ok::<(Seq<u8>, Seq<u8>), WireError>((tag, proof_bytes)),
        HEADER_BYTES + 36 + proof_bytes.len() == presentation_bytes(
            parameter_set,
            tag,
            proof_bytes,
        ).len(),
{
    vstd::bytes::lemma_auto_spec_u32_to_from_le_bytes();
    let input = presentation_bytes(parameter_set, tag, proof_bytes);
    let head = header_bytes(WIRE_PRESENTATION, parameter_set) + tag;
    lemma_header_accepted(WIRE_PRESENTATION, parameter_set, input.skip(HEADER_BYTES as int));
    assert(header_bytes(WIRE_PRESENTATION, parameter_set) + input.skip(HEADER_BYTES as int) =~= input);
    assert(input.subrange(HEADER_BYTES as int, HEADER_BYTES + 32) =~= tag);
    lemma_framed_roundtrip(head, proof_bytes, Seq::empty());
    assert(input =~= head + framed_bytes(proof_bytes) + Seq::<u8>::empty());
    assert(framed_at(input, HEADER_BYTES + 32) == Some(proof_bytes));
}

/// A presentation envelope whose proof bytes end the input is the
/// canonical encoding of its fields.
pub proof fn lemma_presentation_canonical(input: Seq<u8>, parameter_set: u8)
    requires
        presentation_fields(input, parameter_set) is Ok,
        HEADER_BYTES + 36 + presentation_fields(input, parameter_set)->Ok_0.1.len() == input.len(),
    ensures
        input == presentation_bytes(
            parameter_set,
            presentation_fields(input, parameter_set)->Ok_0.0,
            presentation_fields(input, parameter_set)->Ok_0.1,
        ),
{
    vstd::bytes::lemma_auto_spec_u32_to_from_le_bytes();
    let (tag, proof_bytes) = presentation_fields(input, parameter_set)->Ok_0;
    assert(input.subrange(HEADER_BYTES + 32, HEADER_BYTES + 36) == spec_u32_to_le_bytes(
        proof_bytes.len() as u32,
    ));
    assert(input.take(4) =~= MAGIC@);
    assert(input =~= presentation_bytes(parameter_set, tag, proof_bytes));
}

/// The canonical encoding of an issuance request: the packed commitment
/// and the length-prefixed proof.
pub open spec fn request_bytes(parameter_set: u8, commitment: Seq<u8>, proof_bytes: Seq<u8>) -> Seq<u8> {
    header_bytes(WIRE_ISSUE_REQUEST, parameter_set) + packed_nibbles(commitment) + framed_bytes(
        proof_bytes,
    )
}

/// The commitment and proof bytes that a request envelope holds, before the
/// proof is parsed and trailing data is refused.
pub open spec fn request_fields(input: Seq<u8>, parameter_set: u8, m: nat) -> Result<(Seq<u8>, Seq<u8>), WireError> {
    match header_check(input, WIRE_ISSUE_REQUEST, parameter_set) {
        Err(error) => Err(error),
        Ok(()) => match nibbles_at(input, HEADER_BYTES as int, m) {
            None => Err(WireError::InvalidEncoding),
            Some(commitment) => match framed_at(input, HEADER_BYTES + (m + 1) / 2) {
                None => Err(WireError::InvalidEncoding),
                Some(proof_bytes) => Ok((commitment, proof_bytes)),
            },
        },
    }
}

/// Blind credential-issuance request.
#[derive(Debug)]
pub struct IssueRequest<P: ArcParams> {
    pub(crate) commitment: Vec<u8>,
    pub(crate) proof: Vec<u8>,
    pub(crate) params: PhantomData<P>,
}

/// What decoding a request yields: the envelope's error, the proof
/// backend's parse error, a trailing-data error, or the commitment and proof.
pub open spec fn request_decoded<P: ArcParams, F: FnOnce(&[u8]) -> Result<(), ProofDecodeError>>(
    check: F,
    input: Seq<u8>,
    result: Result<IssueRequest<P>, WireError>,
) -> bool {
    match request_fields(input, P::spec_wire_id(), P::spec_m()) {
        Err(error) => result == Err::<IssueRequest<P>, WireError>(error),
        Ok((commitment, proof_bytes)) => exists|outcome: Result<(), ProofDecodeError>|
            #![trigger proof_format_checked(check, proof_bytes, outcome)]
            {
                &&& proof_format_checked(check, proof_bytes, outcome)
                &&& match outcome {
                    Err(error) => result == Err::<IssueRequest<P>, WireError>(proof_wire_error(error)),
                    Ok(()) => if HEADER_BYTES + (P::spec_m() + 1) / 2 + 4 + proof_bytes.len()
                        != input.len() {
                        result == Err::<IssueRequest<P>, WireError>(WireError::InvalidEncoding)
                    } else {
                        result matches Ok(request) && request.spec_commitment() == commitment
                            && request.spec_proof() == proof_bytes
                    },
                }
            },
    }
}

impl<P: ArcParams> IssueRequest<P> {
    #[verifier::type_invariant]
    spec fn nibbles(self) -> bool {
        all_nibbles(self.commitment@)
    }

    /// The hidden-secret commitment, one GF(16) element per byte.
    pub closed spec fn spec_commitment(&self) -> Seq<u8> {
        self.commitment@
    }

    /// The encoded issuance proof.
    pub closed spec fn spec_proof(&self) -> Seq<u8> {
        self.proof@
    }

    /// Hidden-secret commitment authenticated after proof verification.
    pub fn commitment(&self) -> (commitment: &[u8])
        ensures
            commitment@ == self.spec_commitment(),
            all_nibbles(commitment@),
    {
        proof {
            use_type_invariant(self);
        }
        self.commitment.as_slice()
    }

    /// Proof that the commitment has a well-formed hidden opening.
    pub fn proof_bytes(&self) -> (bytes: &[u8])
        ensures
            bytes@ == self.spec_proof(),
    {
        self.proof.as_slice()
    }

    /// Encode this network request canonically.
    pub fn to_bytes(&self) -> (bytes: Vec<u8>)
        requires
            self.spec_proof().len() <= u32::MAX,
        ensures
            bytes@ == request_bytes(P::spec_wire_id(), self.spec_commitment(), self.spec_proof()),
    {
        let mut output: Vec<u8> = Vec::new();
        header(&mut output, WIRE_ISSUE_REQUEST, P::wire_id());
        let packed = pack_nibbles(self.commitment.as_slice());
        extend_bytes(&mut output, packed.as_slice());
        put_bytes(&mut output, self.proof.as_slice());
        output
    }

    /// Decode a canonical issuance request; `check` parses the proof bytes
    /// with the proof backend.
    ///
    /// # Errors
    ///
    /// Returns [`WireError`] when the envelope, suite, commitment, proof, or
    /// trailing data is invalid.
    pub fn from_bytes<F: FnOnce(&[u8]) -> Result<(), ProofDecodeError>>(bytes: &[u8], check: F) -> (result: Result<Self, WireError>)
        requires
            forall|p: &[u8]| call_requires(check, (p,)),
        ensures
            request_decoded(check, bytes@, result),
    {
        let mut decoder = Decoder::new(bytes, WIRE_ISSUE_REQUEST, P::wire_id())?;
        let m = P::m();
        let commitment = decoder.nibbles(m)?;
        let encoded = decoder.bytes()?;
        assert(request_fields(bytes@, P::spec_wire_id(), P::spec_m()) == Ok::<(Seq<u8>, Seq<u8>), WireError>(
            (commitment@, encoded@),
        ));
        let outcome = check(encoded);
        assert(proof_format_checked(check, encoded@, outcome));
        assert(proof_format_checked(
            check,
            request_fields(bytes@, P::spec_wire_id(), P::spec_m())->Ok_0.1,
            outcome,
        ));
        let proof_bytes = match decode_proof(encoded, outcome) {
            Ok(proof_bytes) => proof_bytes,
            Err(error) => {
                assert(request_decoded(check, bytes@, Err::<Self, WireError>(error)));
                return Err(error);
            },
        };
        match decoder.finish() {
            Ok(()) => {},
            Err(error) => {
                assert(request_decoded(check, bytes@, Err::<Self, WireError>(error)));
                return Err(error);
            },
        }
        Ok(IssueRequest { commitment, proof: proof_bytes, params: PhantomData })
    }
}

impl<P: ArcParams> Clone for IssueRequest<P> {
    fn clone(&self) -> (copy: Self)
        ensures
            copy.spec_commitment() == self.spec_commitment(),
            copy.spec_proof() == self.spec_proof(),
    {
        proof {
            use_type_invariant(self);
        }
        IssueRequest {
            commitment: copy_bytes(self.commitment.as_slice()),
            proof: copy_bytes(self.proof.as_slice()),
            params: PhantomData,
        }
    }
}

/// The canonical encoding of an issuance response: the packed signature
/// and the salt.
pub open spec fn response_bytes(parameter_set: u8, signature: Seq<u8>, salt: Seq<u8>) -> Seq<u8> {
    header_bytes(WIRE_ISSUE_RESPONSE, parameter_set) + packed_nibbles(signature) + salt
}

/// What decoding a response yields: the signature and salt, or why the
/// envelope is refused.
pub open spec fn response_fields(input: Seq<u8>, parameter_set: u8, kn: nat) -> Result<(Seq<u8>, Seq<u8>), WireError> {
    match header_check(input, WIRE_ISSUE_RESPONSE, parameter_set) {
        Err(error) => Err(error),
        Ok(()) => match nibbles_at(input, HEADER_BYTES as int, kn) {
            None => Err(WireError::InvalidEncoding),
            Some(signature) => match fixed_at(input, HEADER_BYTES + (kn + 1) / 2, 32) {
                None => Err(WireError::InvalidEncoding),
                Some(salt) => if HEADER_BYTES + (kn + 1) / 2 + 32 != input.len() {
                    Err(WireError::InvalidEncoding)
                } else {
                    Ok((signature, salt))
                },
            },
        },
    }
}

/// Signer-salted issuer response completing credential issuance.
pub struct IssueResponse<P: ArcParams> {
    pub(crate) signature: Vec<u8>,
    pub(crate) salt: [u8; SALT_BYTES],
    pub(crate) params: PhantomData<P>,
}

/// The views of a decoded response.
pub open spec fn response_view<P: ArcParams>(result: Result<IssueResponse<P>, WireError>) -> Result<(Seq<u8>, Seq<u8>), WireError> {
    match result {
        Ok(response) => Ok((response.spec_signature(), response.spec_salt())),
        Err(error) => Err(error),
    }
}

impl<P: ArcParams> IssueResponse<P> {
    /// The MAYO preimage, one GF(16) element per byte.
    pub closed spec fn spec_signature(&self) -> Seq<u8> {
        self.signature@
    }

    /// The signer salt.
    pub closed spec fn spec_salt(&self) -> Seq<u8> {
        self.salt@
    }

    /// Encode this network response canonically.
    pub fn to_bytes(&self) -> (bytes: Vec<u8>)
        ensures
            bytes@ == response_bytes(P::spec_wire_id(), self.spec_signature(), self.spec_salt()),
    {
        let mut output: Vec<u8> = Vec::new();
        header(&mut output, WIRE_ISSUE_RESPONSE, P::wire_id());
        let mut packed_signature = pack_nibbles(self.signature.as_slice());
        extend_bytes(&mut output, packed_signature.as_slice());
        wipe_vec(&mut packed_signature);
        extend_bytes(&mut output, vstd::array::array_as_slice(&self.salt));
        output
    }

    /// Decode a canonical issuance response.
    ///
    /// # Errors
    ///
    /// Returns [`WireError`] when the envelope, suite, signature, salt, or
    /// trailing data is invalid.
    pub fn from_bytes(bytes: &[u8]) -> (result: Result<Self, WireError>)
        ensures
            response_view(result) == response_fields(bytes@, P::spec_wire_id(), P::spec_kn()),
    {
        let mut decoder = Decoder::new(bytes, WIRE_ISSUE_RESPONSE, P::wire_id())?;
        let signature = decoder.nibbles(P::kn())?;
        let salt: [u8; SALT_BYTES] = decoder.array()?;
        decoder.finish()?;
        Ok(IssueResponse { signature, salt, params: PhantomData })
    }
}

impl<P: ArcParams> Clone for IssueResponse<P> {
    fn clone(&self) -> (copy: Self)
        ensures
            copy.spec_signature() == self.spec_signature(),
            copy.spec_salt() == self.spec_salt(),
    {
        IssueResponse { signature: copy_bytes(self.signature.as_slice()), salt: self.salt, params: PhantomData }
    }
}

/// The commitment to a hidden secret and hiding nonce under a credential
/// scope.
pub open spec fn spec_commitment<P: ArcParams>(
    issuer_context: Seq<u8>,
    credential_context: Seq<u8>,
    secret: Seq<u8>,
    hiding_nonce: Seq<u8>,
) -> Seq<u8> {
    hash_to_nibbles(
        spec_credential_message(
            spec_credential_scope(issuer_context, credential_context),
            secret,
            hiding_nonce,
        ),
        P::spec_m(),
    )
}

/// The canonical encoding of pending issuance state.
pub open spec fn pending_bytes(
    parameter_set: u8,
    issuer_context: Seq<u8>,
    credential_context: Seq<u8>,
    secret: Seq<u8>,
    hiding_nonce: Seq<u8>,
) -> Seq<u8> {
    header_bytes(WIRE_PENDING_ISSUE, parameter_set) + issuer_context + credential_context + secret
        + hiding_nonce
}

/// The issuer context, credential context, secret, and hiding nonce that a
/// pending-issuance envelope holds, or why it is refused.
pub open spec fn pending_fields(input: Seq<u8>, parameter_set: u8) -> Result<
    (Seq<u8>, Seq<u8>, Seq<u8>, Seq<u8>),
    WireError,
> {
    match header_check(input, WIRE_PENDING_ISSUE, parameter_set) {
        Err(error) => Err(error),
        Ok(()) => if input.len() != HEADER_BYTES + 128 {
            Err(WireError::InvalidEncoding)
        } else {
            Ok(
                (
                    input.subrange(HEADER_BYTES as int, HEADER_BYTES + 32),
                    input.subrange(HEADER_BYTES + 32, HEADER_BYTES + 64),
                    input.subrange(HEADER_BYTES + 64, HEADER_BYTES + 96),
                    input.subrange(HEADER_BYTES + 96, HEADER_BYTES + 128),
                ),
            )
        },
    }
}

/// Client-side secret state retained while an issuance request is in flight.
pub struct PendingIssue<P: ArcParams> {
    pub(crate) issuer_context: [u8; 32],
    pub(crate) credential_context: CredentialContext,
    pub(crate) secret: [u8; 32],
    pub(crate) hiding_nonce: [u8; 32],
    pub(crate) commitment: Vec<u8>,
    pub(crate) params: PhantomData<P>,
}

/// The views of a pending issuance's fields.
pub open spec fn pending_view<P: ArcParams>(pending: PendingIssue<P>) -> (Seq<u8>, Seq<u8>, Seq<u8>, Seq<u8>) {
    (
        pending.spec_issuer_context(),
        pending.spec_credential_context().bytes(),
        pending.spec_secret(),
        pending.spec_hiding_nonce(),
    )
}

impl<P: ArcParams> PendingIssue<P> {
    #[verifier::type_invariant]
    spec fn commitment_matches(self) -> bool {
        self.commitment@ == spec_commitment::<P>(
            self.issuer_context@,
            self.credential_context.bytes(),
            self.secret@,
            self.hiding_nonce@,
        )
    }

    /// The issuer context the request was made for.
    pub closed spec fn spec_issuer_context(&self) -> Seq<u8> {
        self.issuer_context@
    }

    /// The requested credential context.
    pub closed spec fn spec_credential_context(&self) -> CredentialContext {
        self.credential_context
    }

    /// The hidden credential secret.
    pub closed spec fn spec_secret(&self) -> Seq<u8> {
        self.secret@
    }

    /// The commitment hiding nonce.
    pub closed spec fn spec_hiding_nonce(&self) -> Seq<u8> {
        self.hiding_nonce@
    }

    /// Encode unprotected crash-recovery state.
    ///
    /// These bytes contain credential secrets and provide no confidentiality,
    /// integrity, or rollback protection. Seal them with application-managed
    /// storage protection before persistence.
    pub fn to_bytes(&self) -> (bytes: Vec<u8>)
        ensures
            bytes@ == pending_bytes(
                P::spec_wire_id(),
                self.spec_issuer_context(),
                self.spec_credential_context().bytes(),
                self.spec_secret(),
                self.spec_hiding_nonce(),
            ),
    {
        let mut output: Vec<u8> = Vec::new();
        header(&mut output, WIRE_PENDING_ISSUE, P::wire_id());
        extend_bytes(&mut output, vstd::array::array_as_slice(&self.issuer_context));
        let credential_context = self.credential_context.digest();
        extend_bytes(&mut output, vstd::array::array_as_slice(&credential_context));
        extend_bytes(&mut output, vstd::array::array_as_slice(&self.secret));
        extend_bytes(&mut output, vstd::array::array_as_slice(&self.hiding_nonce));
        output
    }

    /// Restore canonical pending issuance state for this public key.
    ///
    /// # Errors
    ///
    /// Returns [`WireError`] when the envelope is malformed, belongs to a
    /// different suite or issuer, or has trailing data.
    pub fn from_bytes(public: &PublicKey<P>, bytes: &[u8]) -> (result: Result<Self, WireError>)
        ensures
            pending_fields(bytes@, P::spec_wire_id()) matches Err(error) ==> result == Err::<
                Self,
                WireError,
            >(error),
            pending_fields(bytes@, P::spec_wire_id()) matches Ok(fields) ==> if fields.0
                != public.spec_context() {
                result == Err::<Self, WireError>(WireError::WrongIssuer)
            } else {
                result matches Ok(pending) && pending_view(pending) == fields
            },
    {
        let mut decoder = Decoder::new(bytes, WIRE_PENDING_ISSUE, P::wire_id())?;
        let issuer_context: [u8; 32] = decoder.array()?;
        let credential_context = CredentialContext::from_digest(decoder.array()?);
        let secret: [u8; 32] = decoder.array()?;
        let hiding_nonce: [u8; 32] = decoder.array()?;
        decoder.finish()?;
        assert(bytes@.len() == HEADER_BYTES + 128);
        if !digests_eq(&issuer_context, &public.context()) {
            return Err(WireError::WrongIssuer);
        }
        let own_context = credential_context.digest();
        let scope = credential_scope(&issuer_context, &own_context);
        let commitment = credential_target::<P>(&scope, &secret, &hiding_nonce);
        Ok(PendingIssue {
            issuer_context,
            credential_context,
            secret,
            hiding_nonce,
            commitment,
            params: PhantomData,
        })
    }
}

/// Pending issuance state decodes back from its encoding.
pub proof fn lemma_pending_roundtrip(
    parameter_set: u8,
    issuer_context: Seq<u8>,
    credential_context: Seq<u8>,
    secret: Seq<u8>,
    hiding_nonce: Seq<u8>,
)
    requires
        issuer_context.len() == 32,
        credential_context.len() == 32,
        secret.len() == 32,
        hiding_nonce.len() == 32,
    ensures
        pending_fields(
            pending_bytes(parameter_set, issuer_context, credential_context, secret, hiding_nonce),
            parameter_set,
        ) == Ok::<(Seq<u8>, Seq<u8>, Seq<u8>, Seq<u8>), WireError>(
            (issuer_context, credential_context, secret, hiding_nonce),
        ),
{
    let input = pending_bytes(parameter_set, issuer_context, credential_context, secret, hiding_nonce);
    lemma_header_accepted(WIRE_PENDING_ISSUE, parameter_set, input.skip(HEADER_BYTES as int));
    assert(header_bytes(WIRE_PENDING_ISSUE, parameter_set) + input.skip(HEADER_BYTES as int) =~= input);
    assert(input.subrange(HEADER_BYTES as int, HEADER_BYTES + 32) =~= issuer_context);
    assert(input.subrange(HEADER_BYTES + 32, HEADER_BYTES + 64) =~= credential_context);
    assert(input.subrange(HEADER_BYTES + 64, HEADER_BYTES + 96) =~= secret);
    assert(input.subrange(HEADER_BYTES + 96, HEADER_BYTES + 128) =~= hiding_nonce);
}

/// Only the canonical encoding of its fields decodes as pending state.
pub proof fn lemma_pending_canonical(input: Seq<u8>, parameter_set: u8)
    requires
        pending_fields(input, parameter_set) is Ok,
    ensures
        ({
            let (issuer_context, credential_context, secret, hiding_nonce) = pending_fields(
                input,
                parameter_set,
            )->Ok_0;
            input == pending_bytes(
                parameter_set,
                issuer_context,
                credential_context,
                secret,
                hiding_nonce,
            )
        }),
{
    let (issuer_context, credential_context, secret, hiding_nonce) = pending_fields(input, parameter_set)->Ok_0;
    assert(input.take(4) =~= MAGIC@);
    assert(input =~= pending_bytes(parameter_set, issuer_context, credential_context, secret, hiding_nonce));
}

/// The issuance prover was handed an issuance circuit with this scope and
/// target, this statement and this witness, and answered `outcome`.
pub open spec fn issue_proved<P: ArcParams, F: FnOnce(&IssueCircuit<P>, &[u8], &[bool]) -> Option<Vec<u8>>>(
    prove: F,
    credential_scope: Seq<u8>,
    target: Seq<u8>,
    statement: Seq<u8>,
    witness: Seq<bool>,
    outcome: Option<Seq<u8>>,
) -> bool {
    exists|circuit: &IssueCircuit<P>, s: &[u8], w: &[bool], answer: Option<Vec<u8>>|
        circuit.credential_scope@ == credential_scope && circuit.target@ == target && s@ == statement
            && w@ == witness && call_ensures(prove, (circuit, s, w), answer) && proof_view(answer)
            == outcome
}

/// The issuance verifier was handed an issuance circuit with this scope and
/// target, this statement and these proof bytes, and answered `accepted`.
pub open spec fn issue_checked<P: ArcParams, F: FnOnce(&IssueCircuit<P>, &[u8], &[u8]) -> bool>(
    check: F,
    credential_scope: Seq<u8>,
    target: Seq<u8>,
    statement: Seq<u8>,
    proof_bytes: Seq<u8>,
    accepted: bool,
) -> bool {
    exists|circuit: &IssueCircuit<P>, s: &[u8], p: &[u8]|
        circuit.credential_scope@ == credential_scope && circuit.target@ == target && s@ == statement
            && p@ == proof_bytes && call_ensures(check, (circuit, s, p), accepted)
}

/// The MAYO implementation was handed these GF(16) elements and answered
/// `outcome`: the preimage it signed, or the target it evaluated to.
pub open spec fn mayo_answered<F: FnOnce(&[u8]) -> Option<Vec<u8>>>(
    mayo: F,
    input: Seq<u8>,
    outcome: Option<Seq<u8>>,
) -> bool {
    exists|s: &[u8], answer: Option<Vec<u8>>|
        s@ == input && call_ensures(mayo, (s,), answer) && proof_view(answer) == outcome
}

/// The outcome of checking a MAYO preimage against the target of a
/// commitment and salt: it must evaluate, and to exactly that target.
pub open spec fn signature_checked<P: ArcParams, F: FnOnce(&[u8]) -> Option<Vec<u8>>>(
    evaluate: F,
    signature: Seq<u8>,
    commitment: Seq<u8>,
    salt: Seq<u8>,
    result: Result<(), Error>,
) -> bool {
    exists|evaluated: Option<Seq<u8>>|
        #![trigger mayo_answered(evaluate, signature, evaluated)]
        mayo_answered(evaluate, signature, evaluated) && if evaluated == Some(
            hash_to_nibbles(spec_signed_credential_message(commitment, salt), P::spec_m()),
        ) {
            result is Ok
        } else {
            result == Err::<(), Error>(Error::InvalidSignature)
        }
}

/// Evaluate a MAYO preimage with `evaluate` and compare the result with
/// the signed target of a commitment and salt.
fn check_signature<P: ArcParams, F: FnOnce(&[u8]) -> Option<Vec<u8>>>(
    signature: &[u8],
    commitment: &[u8],
    salt: &[u8; SALT_BYTES],
    evaluate: F,
) -> (result: Result<(), Error>)
    requires
        commitment@.len() == P::spec_m(),
        forall|s: &[u8]| call_requires(evaluate, (s,)),
    ensures
        signature_checked::<P, F>(evaluate, signature@, commitment@, salt@, result),
{
    let mut target = signed_credential_target::<P>(commitment, salt);
    let answer = evaluate(signature);
    assert(mayo_answered(evaluate, signature@, proof_view(answer)));
    let result = match answer {
        None => Err(Error::InvalidSignature),
        Some(mut evaluated) => {
            let equal = gf16_slices_equal(evaluated.as_slice(), target.as_slice());
            wipe_vec(&mut evaluated);
            if equal {
                Ok(())
            } else {
                Err(Error::InvalidSignature)
            }
        },
    };
    wipe_vec(&mut target);
    result
}

impl<P: ArcParams> PublicKey<P> {
    /// Start a blind issuance request for a fresh hidden credential secret.
    ///
    /// `secret` and `hiding_nonce` are fresh random bytes; `prove` runs the
    /// VOLE-in-the-head prover on the issuance circuit, statement, and
    /// witness, and answers `None` when proof construction fails.
    ///
    /// # Errors
    ///
    /// Returns [`Error::InvalidProof`] if the proof backend cannot construct
    /// the issuance proof.
    pub fn prepare_issue<F: FnOnce(&IssueCircuit<P>, &[u8], &[bool]) -> Option<Vec<u8>>>(
        &self,
        credential_context: CredentialContext,
        secret: [u8; 32],
        hiding_nonce: [u8; 32],
        prove: F,
    ) -> (result: Result<(PendingIssue<P>, IssueRequest<P>), Error>)
        requires
            forall|circuit: &IssueCircuit<P>, s: &[u8], w: &[bool]| call_requires(prove, (circuit, s, w)),
        ensures
            ({
                let scope = spec_credential_scope(self.spec_context(), credential_context.bytes());
                let commitment = spec_commitment::<P>(
                    self.spec_context(),
                    credential_context.bytes(),
                    secret@,
                    hiding_nonce@,
                );
                let statement = spec_issue_statement(
                    P::spec_name(),
                    self.spec_context(),
                    credential_context.bytes(),
                    commitment,
                );
                let witness = issue_witness(scope, secret@, hiding_nonce@);
                &&& result is Err ==> result == Err::<(PendingIssue<P>, IssueRequest<P>), Error>(
                    Error::InvalidProof,
                ) && issue_proved(prove, scope, commitment, statement, witness, None)
                &&& result matches Ok((pending, request)) ==> {
                    &&& pending_view(pending) == (
                        self.spec_context(),
                        credential_context.bytes(),
                        secret@,
                        hiding_nonce@,
                    )
                    &&& pending.spec_credential_context() == credential_context
                    &&& request.spec_commitment() == commitment
                    &&& issue_proved(
                        prove,
                        scope,
                        commitment,
                        statement,
                        witness,
                        Some(request.spec_proof()),
                    )
                }
            }),
    {
        let context = self.context();
        let credential = credential_context.digest();
        let scope = credential_scope(&context, &credential);
        let commitment = credential_target::<P>(&scope, &secret, &hiding_nonce);
        let circuit = IssueCircuit::<P> {
            credential_scope: scope,
            target: copy_bytes(commitment.as_slice()),
            params: PhantomData,
        };
        let mut witness = circuit.witness(&secret, &hiding_nonce);
        let statement = issue_statement::<P>(&context, &credential, commitment.as_slice());
        let answer = prove(&circuit, statement.as_slice(), witness.as_slice());
        proof {
            assert(issue_proved(prove, scope@, commitment@, statement@, witness@, proof_view(answer)));
        }
        wipe_bits(&mut witness);
        match answer {
            None => Err(Error::InvalidProof),
            Some(proof_bytes) => {
                let pending = PendingIssue {
                    issuer_context: context,
                    credential_context,
                    secret,
                    hiding_nonce,
                    commitment: copy_bytes(commitment.as_slice()),
                    params: PhantomData,
                };
                let request = IssueRequest { commitment, proof: proof_bytes, params: PhantomData };
                Ok((pending, request))
            },
        }
    }

    /// Check that a credential belongs to this issuer and that its MAYO
    /// preimage, run through `evaluate`, authenticates its commitment and
    /// salt.
    ///
    /// # Errors
    ///
    /// Returns [`Error::WrongIssuer`] for another issuer's credential or
    /// [`Error::InvalidSignature`] when the preimage does not authenticate.
    pub fn verify_credential<F: FnOnce(&[u8]) -> Option<Vec<u8>>>(
        &self,
        credential: &Credential<P>,
        evaluate: F,
    ) -> (result: Result<(), Error>)
        requires
            forall|s: &[u8]| call_requires(evaluate, (s,)),
        ensures
            credential.spec_issuer_context() != self.spec_context() ==> result == Err::<(), Error>(
                Error::WrongIssuer,
            ),
            credential.spec_issuer_context() == self.spec_context() ==> signature_checked::<P, F>(
                evaluate,
                credential.spec_signature(),
                spec_commitment::<P>(
                    credential.spec_issuer_context(),
                    credential.spec_credential_context().bytes(),
                    credential.spec_secret(),
                    credential.spec_hiding_nonce(),
                ),
                credential.spec_salt(),
                result,
            ),
    {
        let context = self.context();
        if !digests_eq(&credential.issuer_context, &context) {
            return Err(Error::WrongIssuer);
        }
        let own_context = credential.credential_context.digest();
        let scope = credential_scope(&credential.issuer_context, &own_context);
        let mut commitment = credential_target::<P>(&scope, &credential.secret, &credential.hiding_nonce);
        let result = check_signature::<P, F>(credential.signature.as_slice(), commitment.as_slice(), &credential.salt, evaluate);
        wipe_vec(&mut commitment);
        result
    }
}

/// What finishing issuance decides: the issuer must match, the request
/// must carry the retained commitment, and the response's preimage must
/// authenticate it; the credential then holds the retained secrets, the
/// response's signature and salt, and no counters.
pub open spec fn finish_outcome<P: ArcParams, F: FnOnce(&[u8]) -> Option<Vec<u8>>>(
    evaluate: F,
    pending: (Seq<u8>, Seq<u8>, Seq<u8>, Seq<u8>),
    credential_context: CredentialContext,
    public_context: Seq<u8>,
    request_commitment: Seq<u8>,
    signature: Seq<u8>,
    salt: Seq<u8>,
    result: Result<Credential<P>, Error>,
) -> bool {
    let (issuer_context, context_bytes, secret, hiding_nonce) = pending;
    let commitment = spec_commitment::<P>(issuer_context, context_bytes, secret, hiding_nonce);
    if issuer_context != public_context {
        result == Err::<Credential<P>, Error>(Error::WrongIssuer)
    } else if request_commitment != commitment {
        result == Err::<Credential<P>, Error>(Error::InvalidRequest)
    } else {
        exists|checked: Result<(), Error>|
            #![trigger signature_checked::<P, F>(evaluate, signature, commitment, salt, checked)]
            signature_checked::<P, F>(evaluate, signature, commitment, salt, checked) && match checked {
                Err(error) => result == Err::<Credential<P>, Error>(error),
                Ok(()) => result matches Ok(credential) && credential.spec_issuer_context()
                    == issuer_context && credential.spec_credential_context() == credential_context
                    && credential.spec_secret() == secret && credential.spec_hiding_nonce()
                    == hiding_nonce && credential.spec_signature() == signature
                    && credential.spec_salt() == salt && credential.spec_counters() == Seq::<
                    (Seq<u8>, u32),
                >::empty(),
            }
    }
}

impl<P: ArcParams> PendingIssue<P> {
    /// Authenticate the exact response and construct a stateful credential;
    /// `evaluate` runs the MAYO public map on the returned preimage.
    ///
    /// # Errors
    ///
    /// Returns [`Error::WrongIssuer`] for a different public key,
    /// [`Error::InvalidRequest`] when retained state does not match the
    /// request, or [`Error::InvalidSignature`] when the response is invalid.
    pub fn finish<F: FnOnce(&[u8]) -> Option<Vec<u8>>>(
        self,
        public: &PublicKey<P>,
        request: &IssueRequest<P>,
        response: &IssueResponse<P>,
        evaluate: F,
    ) -> (result: Result<Credential<P>, Error>)
        requires
            forall|s: &[u8]| call_requires(evaluate, (s,)),
        ensures
            finish_outcome::<P, F>(
                evaluate,
                pending_view(self),
                self.spec_credential_context(),
                public.spec_context(),
                request.spec_commitment(),
                response.spec_signature(),
                response.spec_salt(),
                result,
            ),
    {
        proof {
            use_type_invariant(&self);
        }
        let context = public.context();
        if !digests_eq(&self.issuer_context, &context) {
            return Err(Error::WrongIssuer);
        }
        if !bytes_eq(request.commitment.as_slice(), self.commitment.as_slice()) {
            return Err(Error::InvalidRequest);
        }
        let checked = check_signature::<P, F>(
            response.signature.as_slice(),
            self.commitment.as_slice(),
            &response.salt,
            evaluate,
        );
        let ghost fields = pending_view(self);
        let ghost own_context = self.credential_context;
        let result = match checked {
            Err(error) => Err(error),
            Ok(()) => Ok(Credential {
                issuer_context: self.issuer_context,
                credential_context: self.credential_context,
                signature: copy_bytes(response.signature.as_slice()),
                secret: self.secret,
                hiding_nonce: self.hiding_nonce,
                salt: response.salt,
                next_nonces: Counters::new(),
                params: PhantomData,
            }),
        };
        assert(finish_outcome::<P, F>(
            evaluate,
            fields,
            own_context,
            context@,
            request.commitment@,
            response.signature@,
            response.salt@,
            result,
        ));
        result
    }
}

/// What issuing on a well-sized request decides: the proof verifier's
/// answer on the issuance circuit and statement; after an accepted proof,
/// a salt drawn from `draw_salt`, then the MAYO signer's answer on the
/// signed target of the commitment and that salt.
pub open spec fn issue_outcome<
    P: ArcParams,
    C: FnOnce(&IssueCircuit<P>, &[u8], &[u8]) -> bool,
    D: FnOnce() -> [u8; SALT_BYTES],
    S: FnOnce(&[u8]) -> Option<Vec<u8>>,
>(
    check: C,
    draw_salt: D,
    sign: S,
    issuer_context: Seq<u8>,
    credential_context: Seq<u8>,
    commitment: Seq<u8>,
    proof_bytes: Seq<u8>,
    result: Result<IssueResponse<P>, Error>,
) -> bool {
    let scope = spec_credential_scope(issuer_context, credential_context);
    let statement = spec_issue_statement(P::spec_name(), issuer_context, credential_context, commitment);
    exists|accepted: bool|
        #![trigger issue_checked(check, scope, commitment, statement, proof_bytes, accepted)]
        issue_checked(check, scope, commitment, statement, proof_bytes, accepted) && if !accepted {
            result == Err::<IssueResponse<P>, Error>(Error::InvalidProof)
        } else {
            exists|salt: [u8; SALT_BYTES], signed: Option<Seq<u8>>|
                #![trigger call_ensures(draw_salt, (), salt), mayo_answered(sign, hash_to_nibbles(spec_signed_credential_message(commitment, salt@), P::spec_m()), signed)]
                call_ensures(draw_salt, (), salt) && mayo_answered(
                    sign,
                    hash_to_nibbles(spec_signed_credential_message(commitment, salt@), P::spec_m()),
                    signed,
                ) && match signed {
                    None => result == Err::<IssueResponse<P>, Error>(Error::SigningFailed),
                    Some(signature) => result matches Ok(response) && response.spec_signature()
                        == signature && response.spec_salt() == salt@,
                }
        }
}

/// Issuer holding the MAYO trapdoor used only during credential issuance.
pub struct Issuer<P: ArcParams> {
    pub(crate) secret_key: Vec<u8>,
    pub(crate) public: PublicKey<P>,
}

impl<P: ArcParams> Issuer<P> {
    /// The encoded secret key fits its length prefix.
    #[verifier::type_invariant]
    pub open spec fn well_formed(self) -> bool {
        self.spec_secret_key().len() <= u32::MAX
    }

    /// The encoded MAYO secret key.
    pub closed spec fn spec_secret_key(&self) -> Seq<u8> {
        self.secret_key@
    }

    /// The issuer public key.
    pub closed spec fn spec_public(&self) -> PublicKey<P> {
        self.public
    }

    /// Pair an encoded MAYO secret key with the public key derived from it.
    pub fn assemble(secret_key: Vec<u8>, public: PublicKey<P>) -> (issuer: Self)
        requires
            secret_key@.len() <= u32::MAX,
        ensures
            issuer.spec_secret_key() == secret_key@,
            issuer.spec_public() == public,
    {
        Issuer { secret_key, public }
    }

    /// Borrow the issuer public key.
    pub fn public_key(&self) -> (public: &PublicKey<P>)
        ensures
            *public == self.spec_public(),
    {
        &self.public
    }

    /// Encode the issuer trapdoor and public configuration canonically.
    ///
    /// These bytes contain the issuer secret key and provide no
    /// confidentiality or integrity. Seal them with application-managed key
    /// storage protection before persistence.
    pub fn key_bytes(&self) -> (bytes: Vec<u8>)
        ensures
            bytes@ == key_envelope_bytes(
                WIRE_ISSUER_KEY,
                P::spec_wire_id(),
                self.spec_public().spec_profile(),
                self.spec_public().spec_application_context(),
                self.spec_secret_key(),
            ),
    {
        proof {
            use_type_invariant(self);
            use_type_invariant(&self.public);
        }
        let mut output: Vec<u8> = Vec::new();
        header(&mut output, WIRE_ISSUER_KEY, P::wire_id());
        output.push(self.public.performance_profile().wire_id());
        put_bytes(&mut output, self.public.application_context());
        put_bytes(&mut output, self.secret_key.as_slice());
        output
    }

    /// Decode a canonical issuer-key envelope into its profile,
    /// application context, and encoded MAYO secret key; the key itself is
    /// parsed by the MAYO implementation before [`Self::assemble`].
    pub fn decode_key_fields(bytes: &[u8]) -> (fields: Result<(PerformanceProfile, Vec<u8>, Vec<u8>), WireError>)
        ensures
            key_envelope_view(fields) == spec_decode_key_envelope(
                bytes@,
                WIRE_ISSUER_KEY,
                P::spec_wire_id(),
            ),
    {
        decode_key_envelope(bytes, WIRE_ISSUER_KEY, P::wire_id())
    }

    /// Verify a request for the policy-selected credential context, then
    /// authenticate its commitment using a fresh signer salt.
    ///
    /// `check` runs the VOLE-in-the-head verifier on the issuance circuit,
    /// statement, and proof bytes; `draw_salt` draws the salt, called only
    /// once the proof is accepted, so the requester cannot choose the MAYO
    /// target and a refused request consumes no signer randomness; `sign`
    /// samples a MAYO preimage of the signed target, answering `None` when
    /// sampling fails.
    ///
    /// # Errors
    ///
    /// Returns [`Error::InvalidRequest`] for a malformed commitment,
    /// [`Error::InvalidProof`] for an invalid proof, or
    /// [`Error::SigningFailed`] if MAYO preimage sampling fails.
    pub fn issue<
        C: FnOnce(&IssueCircuit<P>, &[u8], &[u8]) -> bool,
        D: FnOnce() -> [u8; SALT_BYTES],
        S: FnOnce(&[u8]) -> Option<Vec<u8>>,
    >(
        &self,
        request: &IssueRequest<P>,
        credential_context: CredentialContext,
        check: C,
        draw_salt: D,
        sign: S,
    ) -> (result: Result<IssueResponse<P>, Error>)
        requires
            forall|circuit: &IssueCircuit<P>, s: &[u8], p: &[u8]| call_requires(check, (circuit, s, p)),
            call_requires(draw_salt, ()),
            forall|s: &[u8]| call_requires(sign, (s,)),
        ensures
            request.spec_commitment().len() != P::spec_m() ==> result == Err::<IssueResponse<P>, Error>(
                Error::InvalidRequest,
            ),
            request.spec_commitment().len() == P::spec_m() ==> issue_outcome::<P, C, D, S>(
                check,
                draw_salt,
                sign,
                self.spec_public().spec_context(),
                credential_context.bytes(),
                request.spec_commitment(),
                request.spec_proof(),
                result,
            ),
    {
        if request.commitment.len() != P::m() {
            return Err(Error::InvalidRequest);
        }
        let context = self.public.context();
        let credential = credential_context.digest();
        let scope = credential_scope(&context, &credential);
        let circuit = IssueCircuit::<P> {
            credential_scope: scope,
            target: copy_bytes(request.commitment.as_slice()),
            params: PhantomData,
        };
        let statement = issue_statement::<P>(&context, &credential, request.commitment.as_slice());
        let accepted = check(&circuit, statement.as_slice(), request.proof.as_slice());
        assert(issue_checked(check, scope@, request.commitment@, statement@, request.proof@, accepted));
        if !accepted {
            assert(issue_outcome::<P, C, D, S>(
                check,
                draw_salt,
                sign,
                context@,
                credential@,
                request.commitment@,
                request.proof@,
                Err::<IssueResponse<P>, Error>(Error::InvalidProof),
            ));
            return Err(Error::InvalidProof);
        }
        let salt = draw_salt();
        let mut target = signed_credential_target::<P>(request.commitment.as_slice(), &salt);
        let signed = sign(target.as_slice());
        assert(mayo_answered(sign, target@, proof_view(signed)));
        wipe_vec(&mut target);
        let result = match signed {
            None => Err(Error::SigningFailed),
            Some(signature) => Ok(IssueResponse { signature, salt, params: PhantomData }),
        };
        assert(issue_outcome::<P, C, D, S>(
            check,
            draw_salt,
            sign,
            context@,
            credential@,
            request.commitment@,
            request.proof@,
            result,
        ));
        result
    }
}

/// The encoding of counter entries: each context followed by its next
/// nonce as a little-endian `u32`.
pub open spec fn counter_bytes(entries: Seq<(Seq<u8>, u32)>) -> Seq<u8>
    decreases entries.len(),
{
    if entries.len() == 0 {
        Seq::empty()
    } else {
        entries[0].0 + spec_u32_to_le_bytes(entries[0].1) + counter_bytes(entries.drop_first())
    }
}

/// The `count` counter entries at `pos`, if each context is 32 bytes,
/// comes after the one before it (after `previous` for the first), and
/// has a nonzero nonce.
pub open spec fn parse_counters(input: Seq<u8>, pos: int, count: nat, previous: Option<Seq<u8>>) -> Option<
    Seq<(Seq<u8>, u32)>,
>
    decreases count,
{
    if count == 0 {
        Some(Seq::empty())
    } else {
        match fixed_at(input, pos, 32) {
            None => None,
            Some(context) => if previous matches Some(prior) && !lex_less(prior, context) {
                None
            } else {
                match u32_at(input, pos + 32) {
                    None => None,
                    Some(nonce) => if nonce == 0 {
                        None
                    } else {
                        match parse_counters(input, pos + 36, (count - 1) as nat, Some(context)) {
                            None => None,
                            Some(rest) => Some(seq![(context, nonce)] + rest),
                        }
                    },
                }
            },
        }
    }
}

/// A credential's fields, as byte strings.
pub struct CredentialRecord {
    pub issuer_context: Seq<u8>,
    pub credential_context: Seq<u8>,
    pub signature: Seq<u8>,
    pub secret: Seq<u8>,
    pub hiding_nonce: Seq<u8>,
    pub salt: Seq<u8>,
    pub counters: Seq<(Seq<u8>, u32)>,
}

/// The canonical encoding of a credential and its counters.
pub open spec fn credential_bytes(parameter_set: u8, record: CredentialRecord) -> Seq<u8> {
    header_bytes(WIRE_CREDENTIAL, parameter_set) + record.issuer_context + record.credential_context
        + packed_nibbles(record.signature) + record.secret + record.hiding_nonce + record.salt
        + spec_u32_to_le_bytes(record.counters.len() as u32) + counter_bytes(record.counters)
}

/// What a credential envelope holds, or why it is refused, before the
/// issuer and the MAYO preimage are checked.
pub open spec fn credential_fields(input: Seq<u8>, parameter_set: u8, kn: nat) -> Result<CredentialRecord, WireError> {
    let s = ((kn + 1) / 2) as int;
    match header_check(input, WIRE_CREDENTIAL, parameter_set) {
        Err(error) => Err(error),
        Ok(()) => {
            let issuer_context = fixed_at(input, 9, 32);
            let credential_context = fixed_at(input, 41, 32);
            let signature = nibbles_at(input, 73, kn);
            let secret = fixed_at(input, 73 + s, 32);
            let hiding_nonce = fixed_at(input, 105 + s, 32);
            let salt = fixed_at(input, 137 + s, 32);
            let count = u32_at(input, 169 + s);
            if issuer_context is None || credential_context is None || signature is None
                || secret is None || hiding_nonce is None || salt is None || count is None {
                Err(WireError::InvalidEncoding)
            } else if count->0 > MAX_PRESENTATION_CONTEXTS {
                Err(WireError::InvalidEncoding)
            } else {
                match parse_counters(input, 173 + s, count->0 as nat, None) {
                    None => Err(WireError::InvalidEncoding),
                    Some(counters) => if 173 + s + 36 * count->0 != input.len() {
                        Err(WireError::InvalidEncoding)
                    } else {
                        Ok(
                            CredentialRecord {
                                issuer_context: issuer_context->0,
                                credential_context: credential_context->0,
                                signature: signature->0,
                                secret: secret->0,
                                hiding_nonce: hiding_nonce->0,
                                salt: salt->0,
                                counters,
                            },
                        )
                    },
                }
            }
        },
    }
}

impl<P: ArcParams> Credential<P> {
    /// This credential's fields.
    pub open spec fn spec_record(&self) -> CredentialRecord {
        CredentialRecord {
            issuer_context: self.spec_issuer_context(),
            credential_context: self.spec_credential_context().bytes(),
            signature: self.spec_signature(),
            secret: self.spec_secret(),
            hiding_nonce: self.spec_hiding_nonce(),
            salt: self.spec_salt(),
            counters: self.spec_counters(),
        }
    }

    /// Encode the credential and all scoped counters without storage
    /// protection.
    ///
    /// These bytes contain the credential authenticator, hidden tag key, and
    /// privacy-sensitive state. The MAYO authenticator does not bind the
    /// counter map, so this encoding provides neither counter integrity nor
    /// rollback protection. Seal it with application-managed storage
    /// protection before persistence.
    pub fn to_bytes(&self) -> (bytes: Vec<u8>)
        ensures
            bytes@ == credential_bytes(P::spec_wire_id(), self.spec_record()),
    {
        let mut output: Vec<u8> = Vec::new();
        header(&mut output, WIRE_CREDENTIAL, P::wire_id());
        extend_bytes(&mut output, vstd::array::array_as_slice(&self.issuer_context));
        let credential_context = self.credential_context.digest();
        extend_bytes(&mut output, vstd::array::array_as_slice(&credential_context));
        let mut packed_signature = pack_nibbles(self.signature.as_slice());
        extend_bytes(&mut output, packed_signature.as_slice());
        wipe_vec(&mut packed_signature);
        extend_bytes(&mut output, vstd::array::array_as_slice(&self.secret));
        extend_bytes(&mut output, vstd::array::array_as_slice(&self.hiding_nonce));
        extend_bytes(&mut output, vstd::array::array_as_slice(&self.salt));
        let count = self.next_nonces.len();
        let context_count = u32_to_le_bytes(count as u32);
        extend_bytes(&mut output, context_count.as_slice());
        let ghost prefix = output@;
        let ghost entries = self.next_nonces@;
        for index in 0..count
            invariant
                count == entries.len(),
                entries == self.next_nonces@,
                output@ == prefix + counter_bytes(entries.take(index as int)),
        {
            let (context, next_nonce) = self.next_nonces.entry(index);
            extend_bytes(&mut output, vstd::array::array_as_slice(&context));
            let nonce_bytes = u32_to_le_bytes(next_nonce);
            extend_bytes(&mut output, nonce_bytes.as_slice());
            proof {
                lemma_counter_bytes_push(entries, index as int);
            }
        }
        assert(entries.take(count as int) =~= entries);
        output
    }
}

/// Encoding the first `i + 1` entries appends entry `i` to the encoding of
/// the first `i`.
proof fn lemma_counter_bytes_push(entries: Seq<(Seq<u8>, u32)>, i: int)
    requires
        0 <= i < entries.len(),
    ensures
        counter_bytes(entries.take(i + 1)) == counter_bytes(entries.take(i)) + entries[i].0
            + spec_u32_to_le_bytes(entries[i].1),
    decreases i,
{
    if i == 0 {
        assert(entries.take(1).drop_first() =~= Seq::<(Seq<u8>, u32)>::empty());
        assert(counter_bytes(entries.take(1).drop_first()) == Seq::<u8>::empty());
        assert(entries.take(1)[0] == entries[0]);
        assert(counter_bytes(entries.take(0)) == Seq::<u8>::empty());
        assert(counter_bytes(entries.take(1)) =~= entries[0].0 + spec_u32_to_le_bytes(entries[0].1)
            + Seq::<u8>::empty());
    } else {
        let tail = entries.drop_first();
        lemma_counter_bytes_push(tail, i - 1);
        assert(entries.take(i + 1).drop_first() =~= tail.take(i));
        assert(entries.take(i).drop_first() =~= tail.take(i - 1));
        assert(entries.take(i + 1)[0] == entries[0]);
        assert(entries.take(i)[0] == entries[0]);
        assert(tail[i - 1] == entries[i]);
        assert(counter_bytes(entries.take(i + 1)) =~= counter_bytes(entries.take(i)) + entries[i].0
            + spec_u32_to_le_bytes(entries[i].1));
    }
}

/// Entries already read, followed by the entries still to be read.
pub open spec fn then_counters(
    read: Seq<(Seq<u8>, u32)>,
    rest: Option<Seq<(Seq<u8>, u32)>>,
) -> Option<Seq<(Seq<u8>, u32)>> {
    match rest {
        Some(rest) => Some(read + rest),
        None => None,
    }
}

/// What decoding a credential yields: the envelope's error, a different
/// issuer, an unauthentic MAYO preimage, or the credential's fields.
pub open spec fn credential_decoded<P: ArcParams, F: FnOnce(&[u8]) -> Option<Vec<u8>>>(
    evaluate: F,
    input: Seq<u8>,
    public_context: Seq<u8>,
    result: Result<Credential<P>, WireError>,
) -> bool {
    match credential_fields(input, P::spec_wire_id(), P::spec_kn()) {
        Err(error) => result == Err::<Credential<P>, WireError>(error),
        Ok(record) => if record.issuer_context != public_context {
            result == Err::<Credential<P>, WireError>(WireError::WrongIssuer)
        } else {
            let commitment = spec_commitment::<P>(
                record.issuer_context,
                record.credential_context,
                record.secret,
                record.hiding_nonce,
            );
            exists|checked: Result<(), Error>|
                #![trigger signature_checked::<P, F>(evaluate, record.signature, commitment, record.salt, checked)]
                signature_checked::<P, F>(evaluate, record.signature, commitment, record.salt, checked)
                    && match checked {
                    Err(_) => result == Err::<Credential<P>, WireError>(WireError::InvalidCredential),
                    Ok(()) => result matches Ok(credential) && credential.spec_record() == record,
                }
        },
    }
}

impl<P: ArcParams> Credential<P> {
    /// Decode and cryptographically authenticate a credential, then restore
    /// its unauthenticated scoped counters; `evaluate` runs the MAYO public
    /// map on the decoded preimage.
    ///
    /// This checks the MAYO credential relation. It cannot detect a removed
    /// counter, a lower counter, or an older snapshot. The storage layer must
    /// provide integrity and rollback protection.
    ///
    /// # Errors
    ///
    /// Returns [`WireError`] when the envelope or counter map is
    /// noncanonical, the suite or issuer differs, a bound is exceeded, the
    /// MAYO credential relation fails, or trailing data remains.
    pub fn from_bytes<F: FnOnce(&[u8]) -> Option<Vec<u8>>>(
        public: &PublicKey<P>,
        bytes: &[u8],
        evaluate: F,
    ) -> (result: Result<Self, WireError>)
        requires
            forall|s: &[u8]| call_requires(evaluate, (s,)),
        ensures
            credential_decoded::<P, F>(evaluate, bytes@, public.spec_context(), result),
    {
        let mut decoder = Decoder::new(bytes, WIRE_CREDENTIAL, P::wire_id())?;
        let issuer_context: [u8; 32] = decoder.array()?;
        let credential_digest: [u8; 32] = decoder.array()?;
        let credential_context = CredentialContext::from_digest(credential_digest);
        let kn = P::kn();
        let signature = decoder.nibbles(kn)?;
        let secret: [u8; 32] = decoder.array()?;
        let hiding_nonce: [u8; 32] = decoder.array()?;
        let salt: [u8; SALT_BYTES] = decoder.array()?;
        let count = decoder.u32()?;
        let ghost s = ((kn + 1) / 2) as int;
        let ghost base = 173 + s;
        assert(decoder.position() == base);
        assert(fixed_at(bytes@, 9, 32) == Some(issuer_context@));
        assert(fixed_at(bytes@, 41, 32) == Some(credential_digest@));
        assert(nibbles_at(bytes@, 73, kn as nat) == Some(signature@));
        assert(fixed_at(bytes@, 73 + s, 32) == Some(secret@));
        assert(fixed_at(bytes@, 105 + s, 32) == Some(hiding_nonce@));
        assert(fixed_at(bytes@, 137 + s, 32) == Some(salt@));
        assert(u32_at(bytes@, 169 + s) == Some(count));
        if count as usize > MAX_PRESENTATION_CONTEXTS {
            return Err(WireError::InvalidEncoding);
        }
        let ghost expected = |counters: Seq<(Seq<u8>, u32)>|
            CredentialRecord {
                issuer_context: issuer_context@,
                credential_context: credential_digest@,
                signature: signature@,
                secret: secret@,
                hiding_nonce: hiding_nonce@,
                salt: salt@,
                counters,
            };
        assert(credential_fields(bytes@, P::spec_wire_id(), P::spec_kn()) == match parse_counters(
            bytes@,
            base,
            count as nat,
            None,
        ) {
            None => Err(WireError::InvalidEncoding),
            Some(counters) => if base + 36 * count != bytes@.len() {
                Err(WireError::InvalidEncoding)
            } else {
                Ok(expected(counters))
            },
        });
        let mut next_nonces = Counters::new();
        let mut previous: Option<[u8; 32]> = None;
        for index in 0..count
            invariant
                count <= MAX_PRESENTATION_CONTEXTS,
                credential_fields(bytes@, P::spec_wire_id(), P::spec_kn()) == match parse_counters(
                    bytes@,
                    base,
                    count as nat,
                    None,
                ) {
                    None => Err(WireError::InvalidEncoding),
                    Some(counters) => if base + 36 * count != bytes@.len() {
                        Err(WireError::InvalidEncoding)
                    } else {
                        Ok(expected(counters))
                    },
                },
                decoder.bytes_in() == bytes@,
                decoder.position() == base + 36 * index,
                next_nonces@.len() == index,
                previous is None <==> index == 0,
                previous matches Some(prior) ==> next_nonces@.len() > 0 && prior@
                    == next_nonces@.last().0,
                parse_counters(bytes@, base, count as nat, None) == then_counters(
                    next_nonces@,
                    parse_counters(
                        bytes@,
                        base + 36 * index,
                        (count - index) as nat,
                        match previous {
                            Some(prior) => Some(prior@),
                            None => None,
                        },
                    ),
                ),
        {
            let context: [u8; 32] = decoder.array()?;
            if let Some(prior) = previous {
                if order_digests(&prior, &context) >= 0 {
                    return Err(WireError::InvalidEncoding);
                }
            }
            let next_nonce = decoder.u32()?;
            if next_nonce == 0 {
                return Err(WireError::InvalidEncoding);
            }
            let ghost read = next_nonces@;
            let ghost previous_view = match previous {
                Some(prior) => Some(prior@),
                None => None::<Seq<u8>>,
            };
            let ghost later = parse_counters(
                bytes@,
                base + 36 * index + 36,
                (count - index - 1) as nat,
                Some(context@),
            );
            assert(parse_counters(bytes@, base + 36 * index, (count - index) as nat, previous_view)
                == then_counters(seq![(context@, next_nonce)], later));
            next_nonces.push_last(context, next_nonce);
            previous = Some(context);
            assert(then_counters(read, then_counters(seq![(context@, next_nonce)], later))
                =~= then_counters(next_nonces@, later));
        }
        decoder.finish()?;
        proof {
            assert(parse_counters(bytes@, base + 36 * count, 0, match previous {
                Some(prior) => Some(prior@),
                None => None,
            }) == Some(Seq::<(Seq<u8>, u32)>::empty()));
            assert(next_nonces@ + Seq::<(Seq<u8>, u32)>::empty() =~= next_nonces@);
        }
        if !digests_eq(&issuer_context, &public.context()) {
            return Err(WireError::WrongIssuer);
        }
        let credential = Credential {
            issuer_context,
            credential_context,
            signature,
            secret,
            hiding_nonce,
            salt,
            next_nonces,
            params: PhantomData,
        };
        let ghost record = credential.spec_record();
        assert(credential_fields(bytes@, P::spec_wire_id(), P::spec_kn()) == Ok::<
            CredentialRecord,
            WireError,
        >(record));
        assert(credential_fields(bytes@, P::spec_wire_id(), P::spec_kn())->Ok_0 == record);
        let checked = public.verify_credential(&credential, evaluate);
        let ghost commitment = spec_commitment::<P>(
            record.issuer_context,
            record.credential_context,
            record.secret,
            record.hiding_nonce,
        );
        assert(signature_checked::<P, F>(evaluate, record.signature, commitment, record.salt, checked));
        let result = match checked {
            Ok(()) => Ok(credential),
            Err(_) => Err(WireError::InvalidCredential),
        };
        assert(credential_decoded::<P, F>(evaluate, bytes@, public.spec_context(), result));
        result
    }
}

/// Counter entries in ascending order after `previous`, with 32-byte
/// contexts and nonzero nonces.
pub open spec fn counters_follow(entries: Seq<(Seq<u8>, u32)>, previous: Option<Seq<u8>>) -> bool {
    &&& ascending(entries)
    &&& forall|i: int| 0 <= i < entries.len() ==> #[trigger] entries[i].1 > 0 && entries[i].0.len() == 32
    &&& (entries.len() > 0 ==> match previous {
        Some(prior) => lex_less(prior, entries[0].0),
        None => true,
    })
}

/// Encoded counters parse back, wherever they stand in the input.
pub proof fn lemma_counters_roundtrip(
    prefix: Seq<u8>,
    entries: Seq<(Seq<u8>, u32)>,
    suffix: Seq<u8>,
    previous: Option<Seq<u8>>,
)
    requires
        counters_follow(entries, previous),
    ensures
        parse_counters(
            prefix + counter_bytes(entries) + suffix,
            prefix.len() as int,
            entries.len(),
            previous,
        ) == Some(entries),
        counter_bytes(entries).len() == 36 * entries.len(),
    decreases entries.len(),
{
    vstd::bytes::lemma_auto_spec_u32_to_from_le_bytes();
    if entries.len() == 0 {
        assert(counter_bytes(entries) == Seq::<u8>::empty());
    } else {
        let first = entries[0];
        let tail = entries.drop_first();
        let input = prefix + counter_bytes(entries) + suffix;
        let next_prefix = prefix + first.0 + spec_u32_to_le_bytes(first.1);
        assert(counters_follow(tail, Some(first.0))) by {
            assert forall|i: int, j: int| 0 <= i < j < tail.len() implies lex_less(tail[i].0, tail[j].0) by {
                assert(lex_less(entries[i + 1].0, entries[j + 1].0));
            }
            assert forall|i: int| 0 <= i < tail.len() implies #[trigger] tail[i].1 > 0 && tail[i].0.len() == 32 by {
                assert(entries[i + 1].1 > 0 && entries[i + 1].0.len() == 32);
            }
            if tail.len() > 0 {
                assert(lex_less(entries[0].0, entries[1].0));
            }
        }
        lemma_counters_roundtrip(next_prefix, tail, suffix, Some(first.0));
        assert(input =~= next_prefix + counter_bytes(tail) + suffix);
        let p = prefix.len() as int;
        assert(entries[0].1 > 0 && entries[0].0.len() == 32);
        assert(input.subrange(p, p + 32) =~= first.0);
        assert(input.subrange(p + 32, p + 36) =~= spec_u32_to_le_bytes(first.1));
        assert(fixed_at(input, p, 32) == Some(first.0));
        assert(u32_at(input, p + 32) == Some(first.1));
        assert(next_prefix.len() == p + 36);
        assert(seq![first] + tail =~= entries);
    }
}

/// Parsed counters are the encoding of what they yield, in order and
/// well formed.
pub proof fn lemma_counters_canonical(input: Seq<u8>, pos: int, count: nat, previous: Option<Seq<u8>>)
    requires
        parse_counters(input, pos, count, previous) is Some,
        0 <= pos <= input.len(),
    ensures
        ({
            let entries = parse_counters(input, pos, count, previous)->0;
            &&& entries.len() == count
            &&& counters_follow(entries, previous)
            &&& pos + 36 * count <= input.len()
            &&& input.subrange(pos, pos + 36 * count) == counter_bytes(entries)
        }),
    decreases count,
{
    vstd::bytes::lemma_auto_spec_u32_to_from_le_bytes();
    if count == 0 {
        assert(input.subrange(pos, pos) =~= Seq::<u8>::empty());
    } else {
        let context = fixed_at(input, pos, 32)->0;
        let nonce = u32_at(input, pos + 32)->0;
        lemma_counters_canonical(input, pos + 36, (count - 1) as nat, Some(context));
        let rest = parse_counters(input, pos + 36, (count - 1) as nat, Some(context))->0;
        let entries = parse_counters(input, pos, count, previous)->0;
        assert(entries == seq![(context, nonce)] + rest);
        assert(entries.drop_first() =~= rest);
        assert(input.subrange(pos + 32, pos + 36) == spec_u32_to_le_bytes(nonce));
        assert(input.subrange(pos, pos + 36 * count) =~= context + spec_u32_to_le_bytes(nonce)
            + input.subrange(pos + 36, pos + 36 * count));
        assert forall|i: int, j: int| 0 <= i < j < entries.len() implies lex_less(entries[i].0, entries[j].0) by {
            if i == 0 {
                if j > 1 {
                    assert(rest[0].1 > 0 && rest[0].0.len() == 32);
                    assert(rest[j - 1].1 > 0 && rest[j - 1].0.len() == 32);
                    lemma_lex_transitive(context, rest[0].0, rest[j - 1].0);
                }
            }
        }
    }
}

/// A valid credential record: 32-byte fields, a `kn`-element GF(16)
/// preimage, and well-formed counters.
pub open spec fn valid_record(record: CredentialRecord, kn: nat) -> bool {
    &&& record.issuer_context.len() == 32
    &&& record.credential_context.len() == 32
    &&& record.secret.len() == 32
    &&& record.hiding_nonce.len() == 32
    &&& record.salt.len() == 32
    &&& record.signature.len() == kn
    &&& all_nibbles(record.signature)
    &&& valid_counters(record.counters, MAX_PRESENTATION_CONTEXTS as nat)
}

/// Serialisation retains a credential and all its counters: the encoding
/// of a valid record decodes back to exactly that record.
pub proof fn lemma_credential_roundtrip(parameter_set: u8, kn: nat, record: CredentialRecord)
    requires
        valid_record(record, kn),
        credential_bytes(parameter_set, record).len() <= MAX_WIRE_BYTES,
    ensures
        credential_fields(credential_bytes(parameter_set, record), parameter_set, kn) == Ok::<
            CredentialRecord,
            WireError,
        >(record),
{
    vstd::bytes::lemma_auto_spec_u32_to_from_le_bytes();
    lemma_nibbles_roundtrip(record.signature);
    let input = credential_bytes(parameter_set, record);
    let s = ((kn + 1) / 2) as int;
    let packed = packed_nibbles(record.signature);
    let count = record.counters.len();
    let head = header_bytes(WIRE_CREDENTIAL, parameter_set) + record.issuer_context
        + record.credential_context + packed + record.secret + record.hiding_nonce + record.salt
        + spec_u32_to_le_bytes(count as u32);
    lemma_header_accepted(WIRE_CREDENTIAL, parameter_set, input.skip(HEADER_BYTES as int));
    assert(header_bytes(WIRE_CREDENTIAL, parameter_set) + input.skip(HEADER_BYTES as int) =~= input);
    assert(input =~= head + counter_bytes(record.counters) + Seq::<u8>::empty());
    assert(counters_follow(record.counters, None));
    lemma_counters_roundtrip(head, record.counters, Seq::empty(), None);
    assert(head.len() == 173 + s);
    assert(input.subrange(9, 41) =~= record.issuer_context);
    assert(input.subrange(41, 73) =~= record.credential_context);
    assert(input.subrange(73, 73 + s) =~= packed);
    assert(input.subrange(73 + s, 105 + s) =~= record.secret);
    assert(input.subrange(105 + s, 137 + s) =~= record.hiding_nonce);
    assert(input.subrange(137 + s, 169 + s) =~= record.salt);
    assert(input.subrange(169 + s, 173 + s) =~= spec_u32_to_le_bytes(count as u32));
    assert(nibbles_at(input, 73, kn) == Some(record.signature));
    assert(u32_at(input, 169 + s) == Some(count as u32));
}

/// Only the canonical encoding of a valid record decodes as a credential.
pub proof fn lemma_credential_canonical(input: Seq<u8>, parameter_set: u8, kn: nat)
    requires
        credential_fields(input, parameter_set, kn) is Ok,
    ensures
        valid_record(credential_fields(input, parameter_set, kn)->Ok_0, kn),
        input == credential_bytes(parameter_set, credential_fields(input, parameter_set, kn)->Ok_0),
{
    vstd::bytes::lemma_auto_spec_u32_to_from_le_bytes();
    let record = credential_fields(input, parameter_set, kn)->Ok_0;
    let s = ((kn + 1) / 2) as int;
    let count = u32_at(input, 169 + s)->0;
    lemma_counters_canonical(input, 173 + s, count as nat, None);
    lemma_unpacked_nibbles(input.subrange(73, 73 + s), kn);
    let bytes = input.subrange(73, 73 + s);
    assert(packed_nibbles(record.signature) =~= bytes) by {
        lemma_nibbles_repack(bytes, kn);
    }
    assert(input.subrange(169 + s, 173 + s) == spec_u32_to_le_bytes(count));
    assert(input.take(4) =~= MAGIC@);
    assert(input =~= credential_bytes(parameter_set, record));
}

/// A response's signature and salt decode back from its encoding.
pub proof fn lemma_response_roundtrip(parameter_set: u8, kn: nat, signature: Seq<u8>, salt: Seq<u8>)
    requires
        signature.len() == kn,
        all_nibbles(signature),
        salt.len() == 32,
        response_bytes(parameter_set, signature, salt).len() <= MAX_WIRE_BYTES,
    ensures
        response_fields(response_bytes(parameter_set, signature, salt), parameter_set, kn) == Ok::<
            (Seq<u8>, Seq<u8>),
            WireError,
        >((signature, salt)),
{
    lemma_nibbles_roundtrip(signature);
    let input = response_bytes(parameter_set, signature, salt);
    let s = ((kn + 1) / 2) as int;
    lemma_header_accepted(WIRE_ISSUE_RESPONSE, parameter_set, input.skip(HEADER_BYTES as int));
    assert(header_bytes(WIRE_ISSUE_RESPONSE, parameter_set) + input.skip(HEADER_BYTES as int) =~= input);
    assert(input.subrange(9, 9 + s) =~= packed_nibbles(signature));
    assert(input.subrange(9 + s, 41 + s) =~= salt);
}

/// Only the canonical encoding of its fields decodes as a response.
pub proof fn lemma_response_canonical(input: Seq<u8>, parameter_set: u8, kn: nat)
    requires
        response_fields(input, parameter_set, kn) is Ok,
    ensures
        ({
            let (signature, salt) = response_fields(input, parameter_set, kn)->Ok_0;
            &&& signature.len() == kn && all_nibbles(signature) && salt.len() == 32
            &&& input == response_bytes(parameter_set, signature, salt)
        }),
{
    let (signature, salt) = response_fields(input, parameter_set, kn)->Ok_0;
    let s = ((kn + 1) / 2) as int;
    lemma_unpacked_nibbles(input.subrange(9, 9 + s), kn);
    lemma_nibbles_repack(input.subrange(9, 9 + s), kn);
    assert(input.take(4) =~= MAGIC@);
    assert(input =~= response_bytes(parameter_set, signature, salt));
}

/// A request's commitment and proof decode back from its encoding, and
/// nothing trails them.
pub proof fn lemma_request_roundtrip(parameter_set: u8, m: nat, commitment: Seq<u8>, proof_bytes: Seq<u8>)
    requires
        commitment.len() == m,
        all_nibbles(commitment),
        proof_bytes.len() <= u32::MAX,
        request_bytes(parameter_set, commitment, proof_bytes).len() <= MAX_WIRE_BYTES,
    ensures
        request_fields(request_bytes(parameter_set, commitment, proof_bytes), parameter_set, m)
            == Ok::<(Seq<u8>, Seq<u8>), WireError>((commitment, proof_bytes)),
        HEADER_BYTES + (m + 1) / 2 + 4 + proof_bytes.len() == request_bytes(
            parameter_set,
            commitment,
            proof_bytes,
        ).len(),
{
    vstd::bytes::lemma_auto_spec_u32_to_from_le_bytes();
    lemma_nibbles_roundtrip(commitment);
    let input = request_bytes(parameter_set, commitment, proof_bytes);
    let s = ((m + 1) / 2) as int;
    let head = header_bytes(WIRE_ISSUE_REQUEST, parameter_set) + packed_nibbles(commitment);
    lemma_header_accepted(WIRE_ISSUE_REQUEST, parameter_set, input.skip(HEADER_BYTES as int));
    assert(header_bytes(WIRE_ISSUE_REQUEST, parameter_set) + input.skip(HEADER_BYTES as int) =~= input);
    assert(input.subrange(9, 9 + s) =~= packed_nibbles(commitment));
    lemma_framed_roundtrip(head, proof_bytes, Seq::empty());
    assert(input =~= head + framed_bytes(proof_bytes) + Seq::<u8>::empty());
    assert(framed_at(input, 9 + s) == Some(proof_bytes));
}

/// A request envelope whose proof bytes end the input is the canonical
/// encoding of its fields.
pub proof fn lemma_request_canonical(input: Seq<u8>, parameter_set: u8, m: nat)
    requires
        request_fields(input, parameter_set, m) is Ok,
        HEADER_BYTES + (m + 1) / 2 + 4 + request_fields(input, parameter_set, m)->Ok_0.1.len()
            == input.len(),
    ensures
        ({
            let (commitment, proof_bytes) = request_fields(input, parameter_set, m)->Ok_0;
            &&& commitment.len() == m && all_nibbles(commitment)
            &&& input == request_bytes(parameter_set, commitment, proof_bytes)
        }),
{
    vstd::bytes::lemma_auto_spec_u32_to_from_le_bytes();
    let (commitment, proof_bytes) = request_fields(input, parameter_set, m)->Ok_0;
    let s = ((m + 1) / 2) as int;
    lemma_unpacked_nibbles(input.subrange(9, 9 + s), m);
    lemma_nibbles_repack(input.subrange(9, 9 + s), m);
    assert(input.subrange(9 + s, 13 + s) == spec_u32_to_le_bytes(proof_bytes.len() as u32));
    assert(input.take(4) =~= MAGIC@);
    assert(input =~= request_bytes(parameter_set, commitment, proof_bytes));
}

/// The presentation statement binds everything the verifier checks: two
/// challenges and tags give the same statement only if they agree on the
/// credential context, presentation context, limit, binding, and tag.
pub proof fn lemma_presentation_statement_binds(
    name: Seq<u8>,
    issuer_context: Seq<u8>,
    first: PresentationChallenge,
    first_tag: Seq<u8>,
    second: PresentationChallenge,
    second_tag: Seq<u8>,
)
    requires
        issuer_context.len() == 32,
        first_tag.len() == 32,
        second_tag.len() == 32,
        spec_presentation_statement(name, issuer_context, first, first_tag)
            == spec_presentation_statement(name, issuer_context, second, second_tag),
    ensures
        first.spec_credential_context() == second.spec_credential_context(),
        first.spec_presentation_context() == second.spec_presentation_context(),
        first.spec_limit() == second.spec_limit(),
        first.spec_binding() == second.spec_binding(),
        first_tag == second_tag,
{
    vstd::bytes::lemma_auto_spec_u32_to_from_le_bytes();
    first.lemma_parts_are_digests();
    second.lemma_parts_are_digests();
    let prefix = presentation_statement_domain() + length_prefixed(name) + issuer_context;
    let p = prefix.len() as int;
    let a = spec_presentation_statement(name, issuer_context, first, first_tag);
    let b = spec_presentation_statement(name, issuer_context, second, second_tag);
    assert(a.subrange(p, p + 32) =~= first.spec_credential_context().bytes());
    assert(b.subrange(p, p + 32) =~= second.spec_credential_context().bytes());
    assert(a.subrange(p + 32, p + 64) =~= first.spec_presentation_context().bytes());
    assert(b.subrange(p + 32, p + 64) =~= second.spec_presentation_context().bytes());
    assert(a.subrange(p + 64, p + 68) =~= spec_u32_to_le_bytes(first.spec_limit()));
    assert(b.subrange(p + 64, p + 68) =~= spec_u32_to_le_bytes(second.spec_limit()));
    assert(a.subrange(p + 68, p + 100) =~= first.spec_binding().bytes());
    assert(b.subrange(p + 68, p + 100) =~= second.spec_binding().bytes());
    assert(a.subrange(p + 100, p + 132) =~= first_tag);
    assert(b.subrange(p + 100, p + 132) =~= second_tag);
    CredentialContext::lemma_bytes_determine(
        first.spec_credential_context(),
        second.spec_credential_context(),
    );
    PresentationContext::lemma_bytes_determine(
        first.spec_presentation_context(),
        second.spec_presentation_context(),
    );
    PresentationBinding::lemma_bytes_determine(first.spec_binding(), second.spec_binding());
}

/// The issuance statement binds the credential context and the
/// commitment: two requests under one issuer give the same statement only
/// if they agree on both.
pub proof fn lemma_issue_statement_binds(
    name: Seq<u8>,
    issuer_context: Seq<u8>,
    first_context: Seq<u8>,
    first_commitment: Seq<u8>,
    second_context: Seq<u8>,
    second_commitment: Seq<u8>,
)
    requires
        first_context.len() == 32,
        second_context.len() == 32,
        first_commitment.len() <= u64::MAX,
        second_commitment.len() <= u64::MAX,
        spec_issue_statement(name, issuer_context, first_context, first_commitment)
            == spec_issue_statement(name, issuer_context, second_context, second_commitment),
    ensures
        first_context == second_context,
        first_commitment == second_commitment,
{
    vstd::bytes::lemma_auto_spec_u64_to_from_le_bytes();
    let prefix = issue_statement_domain() + length_prefixed(name) + issuer_context;
    let p = prefix.len() as int;
    let a = spec_issue_statement(name, issuer_context, first_context, first_commitment);
    let b = spec_issue_statement(name, issuer_context, second_context, second_commitment);
    assert(a.subrange(p, p + 32) =~= first_context);
    assert(b.subrange(p, p + 32) =~= second_context);
    assert(a.subrange(p + 32, p + 40) =~= spec_u64_to_le_bytes(first_commitment.len() as u64));
    assert(b.subrange(p + 32, p + 40) =~= spec_u64_to_le_bytes(second_commitment.len() as u64));
    assert(first_commitment.len() == second_commitment.len());
    assert(a.skip(p + 40) =~= first_commitment);
    assert(b.skip(p + 40) =~= second_commitment);
}

/// A public key survives its encoding: decoding what `to_bytes` writes
/// gives back exactly its profile, application context and encoded MAYO
/// key.
pub proof fn lemma_public_key_roundtrip<P: ArcParams>(key: PublicKey<P>)
    requires
        key.well_formed(),
        key_envelope_bytes(
            WIRE_PUBLIC_KEY,
            P::spec_wire_id(),
            key.spec_profile(),
            key.spec_application_context(),
            key.spec_mayo_key(),
        ).len() <= MAX_WIRE_BYTES,
    ensures
        spec_decode_key_envelope(
            key_envelope_bytes(
                WIRE_PUBLIC_KEY,
                P::spec_wire_id(),
                key.spec_profile(),
                key.spec_application_context(),
                key.spec_mayo_key(),
            ),
            WIRE_PUBLIC_KEY,
            P::spec_wire_id(),
        ) == Ok::<(PerformanceProfile, Seq<u8>, Seq<u8>), WireError>(
            (key.spec_profile(), key.spec_application_context(), key.spec_mayo_key()),
        ),
{
    lemma_key_envelope_roundtrip(
        WIRE_PUBLIC_KEY,
        P::spec_wire_id(),
        key.spec_profile(),
        key.spec_application_context(),
        key.spec_mayo_key(),
    );
}

/// An issuer survives its key encoding: decoding what `key_bytes` writes
/// gives back exactly its public profile, application context and encoded
/// MAYO secret key.
pub proof fn lemma_issuer_key_roundtrip<P: ArcParams>(issuer: Issuer<P>)
    requires
        issuer.well_formed(),
        issuer.spec_public().well_formed(),
        key_envelope_bytes(
            WIRE_ISSUER_KEY,
            P::spec_wire_id(),
            issuer.spec_public().spec_profile(),
            issuer.spec_public().spec_application_context(),
            issuer.spec_secret_key(),
        ).len() <= MAX_WIRE_BYTES,
    ensures
        spec_decode_key_envelope(
            key_envelope_bytes(
                WIRE_ISSUER_KEY,
                P::spec_wire_id(),
                issuer.spec_public().spec_profile(),
                issuer.spec_public().spec_application_context(),
                issuer.spec_secret_key(),
            ),
            WIRE_ISSUER_KEY,
            P::spec_wire_id(),
        ) == Ok::<(PerformanceProfile, Seq<u8>, Seq<u8>), WireError>(
            (
                issuer.spec_public().spec_profile(),
                issuer.spec_public().spec_application_context(),
                issuer.spec_secret_key(),
            ),
        ),
{
    lemma_key_envelope_roundtrip(
        WIRE_ISSUER_KEY,
        P::spec_wire_id(),
        issuer.spec_public().spec_profile(),
        issuer.spec_public().spec_application_context(),
        issuer.spec_secret_key(),
    );
}

/// A stored credential comes back: for a credential whose MAYO preimage is
/// `kn` GF(16) elements and whose encoding fits a wire envelope, what
/// `to_bytes` writes decodes to exactly its fields and counters, and
/// `from_bytes` against its own issuer context answers either a credential
/// with exactly those fields and counters or, where the MAYO check refuses
/// the preimage, `InvalidCredential`.
pub proof fn lemma_credential_bytes_roundtrip<P: ArcParams, F: FnOnce(&[u8]) -> Option<Vec<u8>>>(
    credential: Credential<P>,
    evaluate: F,
    result: Result<Credential<P>, WireError>,
)
    requires
        credential.spec_signature().len() == P::spec_kn(),
        all_nibbles(credential.spec_signature()),
        valid_counters(credential.spec_counters(), MAX_PRESENTATION_CONTEXTS as nat),
        credential_bytes(P::spec_wire_id(), credential.spec_record()).len() <= MAX_WIRE_BYTES,
        credential_decoded::<P, F>(
            evaluate,
            credential_bytes(P::spec_wire_id(), credential.spec_record()),
            credential.spec_issuer_context(),
            result,
        ),
    ensures
        credential_fields(
            credential_bytes(P::spec_wire_id(), credential.spec_record()),
            P::spec_wire_id(),
            P::spec_kn(),
        ) == Ok::<CredentialRecord, WireError>(credential.spec_record()),
        result matches Ok(restored) ==> restored.spec_record() == credential.spec_record(),
        result is Err ==> result == Err::<Credential<P>, WireError>(WireError::InvalidCredential),
{
    credential.spec_credential_context().lemma_bytes_len();
    lemma_credential_roundtrip(P::spec_wire_id(), P::spec_kn(), credential.spec_record());
}

/// Where entry `i` of encoded counters sits: its 32-byte context at byte
/// `36 * i`, then its next nonce as four little-endian bytes.
pub proof fn lemma_counter_bytes_layout(entries: Seq<(Seq<u8>, u32)>)
    requires
        forall|i: int| 0 <= i < entries.len() ==> (#[trigger] entries[i]).0.len() == 32,
    ensures
        counter_bytes(entries).len() == 36 * entries.len(),
        forall|i: int|
            0 <= i < entries.len() ==> counter_bytes(entries).subrange(36 * i, 36 * i + 32)
                == (#[trigger] entries[i]).0 && counter_bytes(entries).subrange(36 * i + 32, 36 * i + 36)
                == spec_u32_to_le_bytes(entries[i].1),
    decreases entries.len(),
{
    vstd::bytes::lemma_auto_spec_u32_to_from_le_bytes();
    if entries.len() > 0 {
        let rest = entries.drop_first();
        assert forall|i: int| 0 <= i < rest.len() implies (#[trigger] rest[i]).0.len() == 32 by {
            assert(rest[i] == entries[i + 1]);
        }
        lemma_counter_bytes_layout(rest);
        let all = counter_bytes(entries);
        let head = entries[0].0 + spec_u32_to_le_bytes(entries[0].1);
        assert(all == head + counter_bytes(rest));
        assert(head.len() == 36);
        assert forall|i: int| 0 <= i < entries.len() implies all.subrange(36 * i, 36 * i + 32)
            == (#[trigger] entries[i]).0 && all.subrange(36 * i + 32, 36 * i + 36)
            == spec_u32_to_le_bytes(entries[i].1) by {
            if i == 0 {
                assert(all.subrange(0, 32) =~= entries[0].0);
                assert(all.subrange(32, 36) =~= spec_u32_to_le_bytes(entries[0].1));
            } else {
                let j = i - 1;
                assert(rest[j] == entries[i]);
                assert(counter_bytes(rest).subrange(36 * j, 36 * j + 32) == rest[j].0);
                assert(counter_bytes(rest).subrange(36 * j + 32, 36 * j + 36) == spec_u32_to_le_bytes(rest[j].1));
                assert(all.subrange(36 * i, 36 * i + 32) =~= counter_bytes(rest).subrange(36 * j, 36 * j + 32));
                assert(all.subrange(36 * i + 32, 36 * i + 36) =~= counter_bytes(rest).subrange(
                    36 * j + 32,
                    36 * j + 36,
                ));
            }
        }
    }
}

/// Where the fields of a credential encoding sit, with `s = (kn + 1) / 2`
/// packed preimage bytes: the 9-byte header, the issuer context at
/// 9..41, the credential context at 41..73, the packed preimage at
/// 73..73+s, the secret at 73+s..105+s, the hiding nonce at 105+s..137+s,
/// the salt at 137+s..169+s, the counter count as a little-endian `u32`
/// at 169+s..173+s, and then each counter in 36 bytes: its context, then
/// its next nonce as a little-endian `u32`.
pub proof fn lemma_credential_layout(parameter_set: u8, kn: nat, record: CredentialRecord)
    requires
        valid_record(record, kn),
    ensures
        ({
            let bytes = credential_bytes(parameter_set, record);
            let s = ((kn + 1) / 2) as int;
            let base = 173 + s;
            &&& bytes.len() == base + 36 * record.counters.len()
            &&& bytes.subrange(0, 9) == header_bytes(WIRE_CREDENTIAL, parameter_set)
            &&& bytes.subrange(9, 41) == record.issuer_context
            &&& bytes.subrange(41, 73) == record.credential_context
            &&& bytes.subrange(73, 73 + s) == packed_nibbles(record.signature)
            &&& bytes.subrange(73 + s, 105 + s) == record.secret
            &&& bytes.subrange(105 + s, 137 + s) == record.hiding_nonce
            &&& bytes.subrange(137 + s, 169 + s) == record.salt
            &&& bytes.subrange(169 + s, 173 + s) == spec_u32_to_le_bytes(record.counters.len() as u32)
            &&& forall|i: int|
                0 <= i < record.counters.len() ==> bytes.subrange(base + 36 * i, base + 36 * i + 32)
                    == (#[trigger] record.counters[i]).0 && bytes.subrange(
                    base + 36 * i + 32,
                    base + 36 * i + 36,
                ) == spec_u32_to_le_bytes(record.counters[i].1)
        }),
{
    vstd::bytes::lemma_auto_spec_u32_to_from_le_bytes();
    lemma_nibbles_roundtrip(record.signature);
    let bytes = credential_bytes(parameter_set, record);
    let s = ((kn + 1) / 2) as int;
    let base = 173 + s;
    let packed = packed_nibbles(record.signature);
    let head = header_bytes(WIRE_CREDENTIAL, parameter_set) + record.issuer_context
        + record.credential_context + packed + record.secret + record.hiding_nonce + record.salt
        + spec_u32_to_le_bytes(record.counters.len() as u32);
    assert(header_bytes(WIRE_CREDENTIAL, parameter_set).len() == 9);
    assert(head.len() == base);
    assert(bytes == head + counter_bytes(record.counters));
    let counters = record.counters;
    assert forall|i: int| 0 <= i < counters.len() implies (#[trigger] counters[i]).0.len() == 32 by {
        assert(counters[i].1 > 0 && counters[i].0.len() == 32);
    }
    lemma_counter_bytes_layout(counters);
    assert(bytes.subrange(0, 9) =~= header_bytes(WIRE_CREDENTIAL, parameter_set));
    assert(bytes.subrange(9, 41) =~= record.issuer_context);
    assert(bytes.subrange(41, 73) =~= record.credential_context);
    assert(bytes.subrange(73, 73 + s) =~= packed);
    assert(bytes.subrange(73 + s, 105 + s) =~= record.secret);
    assert(bytes.subrange(105 + s, 137 + s) =~= record.hiding_nonce);
    assert(bytes.subrange(137 + s, 169 + s) =~= record.salt);
    assert(bytes.subrange(169 + s, 173 + s) =~= spec_u32_to_le_bytes(record.counters.len() as u32));
    assert forall|i: int|
        0 <= i < counters.len() implies bytes.subrange(base + 36 * i, base + 36 * i + 32)
            == (#[trigger] counters[i]).0 && bytes.subrange(base + 36 * i + 32, base + 36 * i + 36)
            == spec_u32_to_le_bytes(counters[i].1) by {
        let cb = counter_bytes(counters);
        assert(cb.subrange(36 * i, 36 * i + 32) == counters[i].0);
        assert(cb.subrange(36 * i + 32, 36 * i + 36) == spec_u32_to_le_bytes(counters[i].1));
        assert(bytes.subrange(base + 36 * i, base + 36 * i + 32) =~= cb.subrange(36 * i, 36 * i + 32));
        assert(bytes.subrange(base + 36 * i + 32, base + 36 * i + 36) =~= cb.subrange(
            36 * i + 32,
            36 * i + 36,
        ));
    }
}

/// Where the parts of an issuance statement sit: the label
/// `VOLE-ARC/issue-statement/v1` in bytes 0..27, the parameter-set name
/// after its little-endian `u64` length, the 32-byte issuer context, the
/// 32-byte credential context, and the commitment after its little-endian
/// `u64` length.
pub proof fn lemma_issue_statement_layout(
    name: Seq<u8>,
    issuer_context: Seq<u8>,
    credential_context: Seq<u8>,
    commitment: Seq<u8>,
)
    requires
        name.len() <= u64::MAX,
        commitment.len() <= u64::MAX,
        issuer_context.len() == 32,
        credential_context.len() == 32,
    ensures
        ({
            let m = spec_issue_statement(name, issuer_context, credential_context, commitment);
            let n = name.len() as int;
            let c = commitment.len() as int;
            &&& m.len() == 107 + n + c
            &&& m.subrange(0, 27) == "VOLE-ARC/issue-statement/v1".spec_bytes()
            &&& m.subrange(27, 35) == spec_u64_to_le_bytes(name.len() as u64)
            &&& m.subrange(35, 35 + n) == name
            &&& m.subrange(35 + n, 67 + n) == issuer_context
            &&& m.subrange(67 + n, 99 + n) == credential_context
            &&& m.subrange(99 + n, 107 + n) == spec_u64_to_le_bytes(commitment.len() as u64)
            &&& m.subrange(107 + n, 107 + n + c) == commitment
        }),
{
    reveal_strlit("VOLE-ARC/issue-statement/v1");
    broadcast use vstd::string::is_ascii_spec_bytes;
    assert(vstd::string::is_ascii("VOLE-ARC/issue-statement/v1"));
    vstd::bytes::lemma_auto_spec_u64_to_from_le_bytes();
    let m = spec_issue_statement(name, issuer_context, credential_context, commitment);
    let n = name.len() as int;
    let c = commitment.len() as int;
    assert(issue_statement_domain().len() == 27);
    assert(m.subrange(0, 27) =~= issue_statement_domain());
    assert(m.subrange(27, 35) =~= spec_u64_to_le_bytes(name.len() as u64));
    assert(m.subrange(35, 35 + n) =~= name);
    assert(m.subrange(35 + n, 67 + n) =~= issuer_context);
    assert(m.subrange(67 + n, 99 + n) =~= credential_context);
    assert(m.subrange(99 + n, 107 + n) =~= spec_u64_to_le_bytes(commitment.len() as u64));
    assert(m.subrange(107 + n, 107 + n + c) =~= commitment);
}

/// Where the parts of a presentation statement sit: the label
/// `VOLE-ARC/presentation-statement/v1` in bytes 0..34, the parameter-set
/// name after its little-endian `u64` length, and then, from `b = 42 +
/// name length`, the issuer context, the credential context, the
/// presentation context, the limit as a little-endian `u32`, the binding,
/// and the tag.
pub proof fn lemma_presentation_statement_layout(
    name: Seq<u8>,
    issuer_context: Seq<u8>,
    challenge: PresentationChallenge,
    tag: Seq<u8>,
)
    requires
        name.len() <= u64::MAX,
        issuer_context.len() == 32,
        tag.len() == 32,
    ensures
        ({
            let m = spec_presentation_statement(name, issuer_context, challenge, tag);
            let b = 42 + name.len() as int;
            &&& m.len() == b + 164
            &&& m.subrange(0, 34) == "VOLE-ARC/presentation-statement/v1".spec_bytes()
            &&& m.subrange(34, 42) == spec_u64_to_le_bytes(name.len() as u64)
            &&& m.subrange(42, b) == name
            &&& m.subrange(b, b + 32) == issuer_context
            &&& m.subrange(b + 32, b + 64) == challenge.spec_credential_context().bytes()
            &&& m.subrange(b + 64, b + 96) == challenge.spec_presentation_context().bytes()
            &&& m.subrange(b + 96, b + 100) == spec_u32_to_le_bytes(challenge.spec_limit())
            &&& m.subrange(b + 100, b + 132) == challenge.spec_binding().bytes()
            &&& m.subrange(b + 132, b + 164) == tag
        }),
{
    reveal_strlit("VOLE-ARC/presentation-statement/v1");
    broadcast use vstd::string::is_ascii_spec_bytes;
    assert(vstd::string::is_ascii("VOLE-ARC/presentation-statement/v1"));
    vstd::bytes::lemma_auto_spec_u64_to_from_le_bytes();
    vstd::bytes::lemma_auto_spec_u32_to_from_le_bytes();
    challenge.spec_credential_context().lemma_bytes_len();
    challenge.spec_presentation_context().lemma_bytes_len();
    challenge.spec_binding().lemma_bytes_len();
    let m = spec_presentation_statement(name, issuer_context, challenge, tag);
    let b = 42 + name.len() as int;
    assert(presentation_statement_domain().len() == 34);
    assert(m.subrange(0, 34) =~= presentation_statement_domain());
    assert(m.subrange(34, 42) =~= spec_u64_to_le_bytes(name.len() as u64));
    assert(m.subrange(42, b) =~= name);
    assert(m.subrange(b, b + 32) =~= issuer_context);
    assert(m.subrange(b + 32, b + 64) =~= challenge.spec_credential_context().bytes());
    assert(m.subrange(b + 64, b + 96) =~= challenge.spec_presentation_context().bytes());
    assert(m.subrange(b + 96, b + 100) =~= spec_u32_to_le_bytes(challenge.spec_limit()));
    assert(m.subrange(b + 100, b + 132) =~= challenge.spec_binding().bytes());
    assert(m.subrange(b + 132, b + 164) =~= tag);
}

/// Where the fields of a pending-issue encoding sit: the 9-byte header,
/// then the issuer context at 9..41, the credential context at 41..73,
/// the secret at 73..105, and the hiding nonce at 105..137.
pub proof fn lemma_pending_layout(
    parameter_set: u8,
    issuer_context: Seq<u8>,
    credential_context: Seq<u8>,
    secret: Seq<u8>,
    hiding_nonce: Seq<u8>,
)
    requires
        issuer_context.len() == 32,
        credential_context.len() == 32,
        secret.len() == 32,
        hiding_nonce.len() == 32,
    ensures
        ({
            let m = pending_bytes(parameter_set, issuer_context, credential_context, secret, hiding_nonce);
            &&& m.len() == 137
            &&& m.subrange(0, 9) == header_bytes(WIRE_PENDING_ISSUE, parameter_set)
            &&& m.subrange(9, 41) == issuer_context
            &&& m.subrange(41, 73) == credential_context
            &&& m.subrange(73, 105) == secret
            &&& m.subrange(105, 137) == hiding_nonce
        }),
{
    let m = pending_bytes(parameter_set, issuer_context, credential_context, secret, hiding_nonce);
    assert(header_bytes(WIRE_PENDING_ISSUE, parameter_set).len() == 9);
    assert(m.subrange(0, 9) =~= header_bytes(WIRE_PENDING_ISSUE, parameter_set));
    assert(m.subrange(9, 41) =~= issuer_context);
    assert(m.subrange(41, 73) =~= credential_context);
    assert(m.subrange(73, 105) =~= secret);
    assert(m.subrange(105, 137) =~= hiding_nonce);
}

/// Where the fields of a response encoding sit: the 9-byte header, the
/// preimage packed two nibbles to a byte in the next `s = (kn + 1) / 2`
/// bytes, and the 32-byte salt after it.
pub proof fn lemma_response_layout(parameter_set: u8, signature: Seq<u8>, salt: Seq<u8>)
    requires
        salt.len() == 32,
    ensures
        ({
            let m = response_bytes(parameter_set, signature, salt);
            let s = ((signature.len() + 1) / 2) as int;
            &&& m.len() == 41 + s
            &&& m.subrange(0, 9) == header_bytes(WIRE_ISSUE_RESPONSE, parameter_set)
            &&& m.subrange(9, 9 + s) == packed_nibbles(signature)
            &&& m.subrange(9 + s, 41 + s) == salt
        }),
{
    let m = response_bytes(parameter_set, signature, salt);
    let s = ((signature.len() + 1) / 2) as int;
    assert(header_bytes(WIRE_ISSUE_RESPONSE, parameter_set).len() == 9);
    assert(packed_nibbles(signature).len() == s);
    assert(m.subrange(0, 9) =~= header_bytes(WIRE_ISSUE_RESPONSE, parameter_set));
    assert(m.subrange(9, 9 + s) =~= packed_nibbles(signature));
    assert(m.subrange(9 + s, 41 + s) =~= salt);
}

/// Where the fields of a request encoding sit: the 9-byte header, the
/// commitment packed two nibbles to a byte in the next `p = (m + 1) / 2`
/// bytes, then the proof's length as a little-endian `u32`, then the
/// proof.
pub proof fn lemma_request_layout(parameter_set: u8, commitment: Seq<u8>, proof_bytes: Seq<u8>)
    ensures
        ({
            let m = request_bytes(parameter_set, commitment, proof_bytes);
            let p = ((commitment.len() + 1) / 2) as int;
            let q = proof_bytes.len() as int;
            &&& m.len() == 13 + p + q
            &&& m.subrange(0, 9) == header_bytes(WIRE_ISSUE_REQUEST, parameter_set)
            &&& m.subrange(9, 9 + p) == packed_nibbles(commitment)
            &&& m.subrange(9 + p, 13 + p) == spec_u32_to_le_bytes(proof_bytes.len() as u32)
            &&& m.subrange(13 + p, 13 + p + q) == proof_bytes
        }),
{
    vstd::bytes::lemma_auto_spec_u32_to_from_le_bytes();
    let m = request_bytes(parameter_set, commitment, proof_bytes);
    let p = ((commitment.len() + 1) / 2) as int;
    let q = proof_bytes.len() as int;
    assert(header_bytes(WIRE_ISSUE_REQUEST, parameter_set).len() == 9);
    assert(packed_nibbles(commitment).len() == p);
    assert(m.subrange(0, 9) =~= header_bytes(WIRE_ISSUE_REQUEST, parameter_set));
    assert(m.subrange(9, 9 + p) =~= packed_nibbles(commitment));
    assert(m.subrange(9 + p, 13 + p) =~= spec_u32_to_le_bytes(proof_bytes.len() as u32));
    assert(m.subrange(13 + p, 13 + p + q) =~= proof_bytes);
}

/// Where the fields of a presentation encoding sit: the 9-byte header,
/// the 32-byte tag at 9..41, the proof's length as a little-endian `u32`
/// at 41..45, then the proof.
pub proof fn lemma_presentation_layout(parameter_set: u8, tag: Seq<u8>, proof_bytes: Seq<u8>)
    requires
        tag.len() == 32,
    ensures
        ({
            let m = presentation_bytes(parameter_set, tag, proof_bytes);
            let q = proof_bytes.len() as int;
            &&& m.len() == 45 + q
            &&& m.subrange(0, 9) == header_bytes(WIRE_PRESENTATION, parameter_set)
            &&& m.subrange(9, 41) == tag
            &&& m.subrange(41, 45) == spec_u32_to_le_bytes(proof_bytes.len() as u32)
            &&& m.subrange(45, 45 + q) == proof_bytes
        }),
{
    vstd::bytes::lemma_auto_spec_u32_to_from_le_bytes();
    let m = presentation_bytes(parameter_set, tag, proof_bytes);
    let q = proof_bytes.len() as int;
    assert(header_bytes(WIRE_PRESENTATION, parameter_set).len() == 9);
    assert(m.subrange(0, 9) =~= header_bytes(WIRE_PRESENTATION, parameter_set));
    assert(m.subrange(9, 41) =~= tag);
    assert(m.subrange(41, 45) =~= spec_u32_to_le_bytes(proof_bytes.len() as u32));
    assert(m.subrange(45, 45 + q) =~= proof_bytes);
}

/// Where the fields of a key envelope sit: the 9-byte header, the profile
/// byte at 9, the application context's length as a little-endian `u32`
/// at 10..14, the application context, then the key's length as a
/// little-endian `u32`, then the key.
pub proof fn lemma_key_envelope_layout(
    artifact: u8,
    parameter_set: u8,
    profile: PerformanceProfile,
    application_context: Seq<u8>,
    key: Seq<u8>,
)
    ensures
        ({
            let m = key_envelope_bytes(artifact, parameter_set, profile, application_context, key);
            let a = application_context.len() as int;
            let k = key.len() as int;
            &&& m.len() == 18 + a + k
            &&& m.subrange(0, 9) == header_bytes(artifact, parameter_set)
            &&& m[9] == profile_wire_id(profile)
            &&& m.subrange(10, 14) == spec_u32_to_le_bytes(application_context.len() as u32)
            &&& m.subrange(14, 14 + a) == application_context
            &&& m.subrange(14 + a, 18 + a) == spec_u32_to_le_bytes(key.len() as u32)
            &&& m.subrange(18 + a, 18 + a + k) == key
        }),
{
    vstd::bytes::lemma_auto_spec_u32_to_from_le_bytes();
    let m = key_envelope_bytes(artifact, parameter_set, profile, application_context, key);
    let a = application_context.len() as int;
    let k = key.len() as int;
    assert(header_bytes(artifact, parameter_set).len() == 9);
    assert(m.subrange(0, 9) =~= header_bytes(artifact, parameter_set));
    assert(m.subrange(10, 14) =~= spec_u32_to_le_bytes(application_context.len() as u32));
    assert(m.subrange(14, 14 + a) =~= application_context);
    assert(m.subrange(14 + a, 18 + a) =~= spec_u32_to_le_bytes(key.len() as u32));
    assert(m.subrange(18 + a, 18 + a + k) =~= key);
}

/// A commitment hashes, to `m` nibbles, the label
/// `VOLE-ARC/credential/v1` (bytes 0..22), the credential scope of the
/// issuer and credential contexts (22..54), the secret (54..86), and the
/// hiding nonce (86..118); that scope hashes the label
/// `VOLE-ARC/credential-scope/v1`, the issuer context, and then the
/// credential context.
pub proof fn lemma_commitment_layout<P: ArcParams>(
    issuer_context: Seq<u8>,
    credential_context: Seq<u8>,
    secret: Seq<u8>,
    hiding_nonce: Seq<u8>,
)
    requires
        issuer_context.len() == 32,
        credential_context.len() == 32,
        secret.len() == 32,
        hiding_nonce.len() == 32,
    ensures
        forall|scope_input: Seq<u8>, message: Seq<u8>|
            scope_input.len() == 92 && scope_input.subrange(0, 28)
                == "VOLE-ARC/credential-scope/v1".spec_bytes() && scope_input.subrange(28, 60)
                == issuer_context && scope_input.subrange(60, 92) == credential_context
                && message.len() == 118 && message.subrange(0, 22) == "VOLE-ARC/credential/v1".spec_bytes()
                && message.subrange(22, 54) == sha3_shake256_32(scope_input) && message.subrange(54, 86)
                == secret && message.subrange(86, 118) == hiding_nonce ==> spec_commitment::<P>(
                issuer_context,
                credential_context,
                secret,
                hiding_nonce,
            ) == #[trigger] hash_to_nibbles(message, P::spec_m()) && #[trigger] sha3_shake256_32(
                scope_input,
            ) == spec_credential_scope(issuer_context, credential_context),
{
    crate::circuit::lemma_credential_scope_layout(issuer_context, credential_context);
    let scope = spec_credential_scope(issuer_context, credential_context);
    assert forall|scope_input: Seq<u8>, message: Seq<u8>|
        scope_input.len() == 92 && scope_input.subrange(0, 28) == "VOLE-ARC/credential-scope/v1".spec_bytes()
            && scope_input.subrange(28, 60) == issuer_context && scope_input.subrange(60, 92)
            == credential_context && message.len() == 118 && message.subrange(0, 22)
            == "VOLE-ARC/credential/v1".spec_bytes() && message.subrange(22, 54) == sha3_shake256_32(
            scope_input,
        ) && message.subrange(54, 86) == secret && message.subrange(86, 118)
            == hiding_nonce implies spec_commitment::<P>(
        issuer_context,
        credential_context,
        secret,
        hiding_nonce,
    ) == #[trigger] hash_to_nibbles(message, P::spec_m()) && #[trigger] sha3_shake256_32(scope_input)
        == spec_credential_scope(issuer_context, credential_context) by {
        assert(sha3_shake256_32(scope_input) == scope);
        assert(scope.len() == 32);
        crate::circuit::lemma_credential_message_layout(scope, secret, hiding_nonce);
        let expected = spec_credential_message(scope, secret, hiding_nonce);
        assert(message =~= message.subrange(0, 22) + message.subrange(22, 54) + message.subrange(54, 86)
            + message.subrange(86, 118));
        assert(expected =~= expected.subrange(0, 22) + expected.subrange(22, 54) + expected.subrange(
            54,
            86,
        ) + expected.subrange(86, 118));
        assert(message == expected);
    }
}

} // verus!
